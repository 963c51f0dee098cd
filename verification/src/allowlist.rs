//! The allowlist: which aliases may be proxied, to which host, and whether
//! a target asks for a token.
use vstd::prelude::*;
use vstd::string::StringExecFns;
use crate::text::str_eq;
use std::sync::Arc;

verus! {

/// An upstream target: the host that requests are forwarded to, and whether
/// they must carry a valid token.
#[derive(Debug, PartialEq, Eq)]
pub struct Target {
    pub host: String,
    pub auth: bool,
}

/// What a target holds, as plain values.
pub struct TargetView {
    pub host: Seq<char>,
    pub auth: bool,
}

impl View for Target {
    type V = TargetView;

    open spec fn view(&self) -> TargetView {
        TargetView { host: self.host@, auth: self.auth }
    }
}

/// The view of an optional target.
pub open spec fn opt_target_view(t: Option<Target>) -> Option<TargetView> {
    match t {
        Some(t) => Some(t@),
        None => None,
    }
}

/// A map from alias to target; no alias occurs twice.
#[derive(Debug)]
pub struct Allowlist {
    entries: Vec<(String, Target)>,
}

/// The alias of entry `i`.
spec fn alias_at(es: Seq<(String, Target)>, i: int) -> Seq<char> {
    es[i].0@
}

/// Some entry has alias `k`.
spec fn holds_alias(es: Seq<(String, Target)>, k: Seq<char>) -> bool {
    exists|i: int| 0 <= i < es.len() && alias_at(es, i) == k
}

/// No alias occurs twice.
spec fn distinct_aliases(es: Seq<(String, Target)>) -> bool {
    forall|i: int, j: int|
        0 <= i < es.len() && 0 <= j < es.len() && i != j ==> alias_at(es, i) != alias_at(es, j)
}

/// The map from alias to target that the entries hold.
spec fn entries_map(es: Seq<(String, Target)>) -> Map<Seq<char>, TargetView> {
    Map::new(
        |k: Seq<char>| holds_alias(es, k),
        |k: Seq<char>| es[choose|i: int| 0 <= i < es.len() && alias_at(es, i) == k].1@,
    )
}

proof fn lemma_lookup(es: Seq<(String, Target)>, i: int)
    requires
        distinct_aliases(es),
        0 <= i < es.len(),
    ensures
        entries_map(es).contains_key(alias_at(es, i)),
        entries_map(es)[alias_at(es, i)] == es[i].1@,
{
    let k = alias_at(es, i);
    assert(holds_alias(es, k));
    let j = choose|j: int| 0 <= j < es.len() && alias_at(es, j) == k;
    assert(j == i);
}

proof fn lemma_replace(es: Seq<(String, Target)>, i: int, e: (String, Target))
    requires
        distinct_aliases(es),
        0 <= i < es.len(),
        alias_at(es, i) == e.0@,
    ensures
        distinct_aliases(es.update(i, e)),
        entries_map(es.update(i, e)) == entries_map(es).insert(e.0@, e.1@),
{
    let new = es.update(i, e);
    let k = e.0@;
    assert forall|a: int, b: int|
        0 <= a < new.len() && 0 <= b < new.len() && a != b implies alias_at(new, a) != alias_at(
        new,
        b,
    ) by {
        assert(alias_at(es, a) != alias_at(es, b));
    }
    assert forall|key: Seq<char>| #[trigger]
        entries_map(new).contains_key(key) == entries_map(es).insert(k, e.1@).contains_key(key) by {
        if holds_alias(new, key) {
            let j = choose|j: int| 0 <= j < new.len() && alias_at(new, j) == key;
            if j != i {
                assert(alias_at(es, j) == key);
            }
        }
        if holds_alias(es, key) {
            let j = choose|j: int| 0 <= j < es.len() && alias_at(es, j) == key;
            assert(alias_at(new, j) == key);
        }
        if key == k {
            assert(alias_at(new, i) == key);
        }
    }
    assert forall|key: Seq<char>| #[trigger]
        entries_map(new).contains_key(key) implies entries_map(new)[key] == entries_map(es).insert(
        k,
        e.1@,
    )[key] by {
        let j = choose|j: int| 0 <= j < new.len() && alias_at(new, j) == key;
        lemma_lookup(new, j);
        if j != i {
            lemma_lookup(es, j);
        }
    }
    assert(entries_map(new) =~= entries_map(es).insert(k, e.1@));
}

proof fn lemma_append(es: Seq<(String, Target)>, e: (String, Target))
    requires
        distinct_aliases(es),
        !holds_alias(es, e.0@),
    ensures
        distinct_aliases(es.push(e)),
        entries_map(es.push(e)) == entries_map(es).insert(e.0@, e.1@),
{
    let new = es.push(e);
    let n = es.len() as int;
    let k = e.0@;
    assert forall|a: int, b: int|
        0 <= a < new.len() && 0 <= b < new.len() && a != b implies alias_at(new, a) != alias_at(
        new,
        b,
    ) by {
        if a < n && b < n {
            assert(alias_at(es, a) != alias_at(es, b));
        } else if a < n {
            assert(alias_at(es, a) != k);
        } else {
            assert(alias_at(es, b) != k);
        }
    }
    assert forall|key: Seq<char>| #[trigger]
        entries_map(new).contains_key(key) == entries_map(es).insert(k, e.1@).contains_key(key) by {
        if holds_alias(new, key) {
            let j = choose|j: int| 0 <= j < new.len() && alias_at(new, j) == key;
            if j != n {
                assert(alias_at(es, j) == key);
            }
        }
        if holds_alias(es, key) {
            let j = choose|j: int| 0 <= j < es.len() && alias_at(es, j) == key;
            assert(alias_at(new, j) == key);
        }
        if key == k {
            assert(alias_at(new, n) == key);
        }
    }
    assert forall|key: Seq<char>| #[trigger]
        entries_map(new).contains_key(key) implies entries_map(new)[key] == entries_map(es).insert(
        k,
        e.1@,
    )[key] by {
        let j = choose|j: int| 0 <= j < new.len() && alias_at(new, j) == key;
        lemma_lookup(new, j);
        if j != n {
            lemma_lookup(es, j);
        }
    }
    assert(entries_map(new) =~= entries_map(es).insert(k, e.1@));
}

fn position(entries: &Vec<(String, Target)>, alias: &str) -> (r: Option<usize>)
    ensures
        match r {
            Some(i) => i < entries@.len() && alias_at(entries@, i as int) == alias@,
            None => !holds_alias(entries@, alias@),
        },
{
    let mut i: usize = 0;
    while i < entries.len()
        invariant
            i <= entries@.len(),
            forall|j: int| 0 <= j < i ==> alias_at(entries@, j) != alias@,
        decreases entries@.len() - i,
    {
        if str_eq(entries[i].0.as_str(), alias) {
            return Some(i);
        }
        i = i + 1;
    }
    None
}

impl Allowlist {
    #[verifier::type_invariant]
    spec fn aliases_distinct(self) -> bool {
        distinct_aliases(self.entries@)
    }

    /// The aliases and their targets.
    pub closed spec fn targets(self) -> Map<Seq<char>, TargetView> {
        entries_map(self.entries@)
    }

    /// An empty allowlist.
    pub fn new() -> (r: Allowlist)
        ensures
            r@ == Map::<Seq<char>, TargetView>::empty(),
    {
        let r = Allowlist { entries: Vec::new() };
        assert(r.targets() =~= Map::<Seq<char>, TargetView>::empty());
        r
    }

    /// Maps `alias` to `target`, replacing any target it had.
    pub fn insert(&mut self, alias: String, target: Target)
        ensures
            final(self)@ == old(self)@.insert(alias@, target@),
    {
        proof {
            use_type_invariant(&*self);
        }
        let mut entries: Vec<(String, Target)> = Vec::new();
        std::mem::swap(&mut entries, &mut self.entries);
        let ghost before = entries@;
        match position(&entries, alias.as_str()) {
            Some(i) => {
                let ghost e = (alias, target);
                proof {
                    lemma_replace(before, i as int, e);
                }
                entries.set(i, (alias, target));
            },
            None => {
                let ghost e = (alias, target);
                proof {
                    lemma_append(before, e);
                }
                entries.push((alias, target));
            },
        }
        self.entries = entries;
    }

    /// The target that `alias` maps to, if any.
    pub fn get(&self, alias: &str) -> (r: Option<&Target>)
        ensures
            r is Some <==> self@.contains_key(alias@),
            r matches Some(t) ==> t@ == self@[alias@],
    {
        proof {
            use_type_invariant(self);
        }
        match position(&self.entries, alias) {
            Some(i) => {
                proof {
                    lemma_lookup(self.entries@, i as int);
                }
                Some(&self.entries[i].1)
            },
            None => None,
        }
    }
}

impl View for Allowlist {
    type V = Map<Seq<char>, TargetView>;

    open spec fn view(&self) -> Map<Seq<char>, TargetView> {
        self.targets()
    }
}

/// The allowlist asks for a token on some target while no secret is
/// configured: `alias` names one such target.
#[derive(Debug, PartialEq, Eq)]
pub struct FailClosedError {
    pub alias: String,
}

impl FailClosedError {
    /// The text of the error; it names the offending alias.
    pub fn to_string(&self) -> (r: String)
        ensures
            r@ == "target \""@ + self.alias@ + "\" requires auth but JWT_SECRET is not configured"@,
    {
        let mut s = String::from_str("target \"");
        s.append(self.alias.as_str());
        s.append("\" requires auth but JWT_SECRET is not configured");
        s
    }
}

/// The error names an alias whose target asks for a token.
pub open spec fn names_protected_alias(targets: Map<Seq<char>, TargetView>, e: FailClosedError) -> bool {
    targets.contains_key(e.alias@) && targets[e.alias@].auth
}

/// Some target of the allowlist asks for a token.
pub open spec fn some_target_requires_auth(targets: Map<Seq<char>, TargetView>) -> bool {
    exists|k: Seq<char>| targets.contains_key(k) && #[trigger] targets[k].auth
}

/// Refuses an allowlist that asks for a token on some target while no secret
/// is configured, naming one such target; accepts it otherwise.
pub fn check_fail_closed(targets: &Allowlist, secret_configured: bool) -> (r: Result<
    (),
    FailClosedError,
>)
    ensures
        r is Ok <==> (secret_configured || !some_target_requires_auth(targets@)),
        r matches Err(e) ==> targets@.contains_key(e.alias@) && targets@[e.alias@].auth,
{
    proof {
        use_type_invariant(targets);
    }
    if secret_configured {
        return Ok(());
    }
    let entries = &targets.entries;
    let mut i: usize = 0;
    while i < entries.len()
        invariant
            i <= entries@.len(),
            !secret_configured,
            entries@ == targets.entries@,
            distinct_aliases(entries@),
            forall|j: int| 0 <= j < i ==> !(#[trigger] entries@[j]).1.auth,
        decreases entries@.len() - i,
    {
        if entries[i].1.auth {
            proof {
                lemma_lookup(entries@, i as int);
                let k = alias_at(entries@, i as int);
                assert(targets@.contains_key(k) && targets@[k].auth);
                assert(some_target_requires_auth(targets@));
            }
            return Err(FailClosedError { alias: entries[i].0.clone() });
        }
        i = i + 1;
    }
    proof {
        if some_target_requires_auth(targets@) {
            let k = choose|k: Seq<char>| targets@.contains_key(k) && #[trigger] targets@[k].auth;
            let j = choose|j: int| 0 <= j < entries@.len() && alias_at(entries@, j) == k;
            lemma_lookup(entries@, j);
            assert(!entries@[j].1.auth);
        }
    }
    Ok(())
}

/// The target that `alias` maps to, if the allowlist holds it.
pub fn resolve(allowlist: &Allowlist, alias: &str) -> (r: Option<Target>)
    ensures
        opt_target_view(r) == if allowlist@.contains_key(alias@) {
            Some(allowlist@[alias@])
        } else {
            None::<TargetView>
        },
{
    match allowlist.get(alias) {
        Some(t) => Some(Target { host: t.host.clone(), auth: t.auth }),
        None => None,
    }
}

/// Why a loaded allowlist was not put in force.
#[derive(Debug, PartialEq, Eq)]
pub enum AllowlistError {
    /// The configuration could not be read or parsed; the text says why.
    Load(String),
    /// The configuration breaks the fail-closed rule.
    FailClosed(FailClosedError),
}

/// Whether a freshly loaded allowlist may be put in force: it must have
/// loaded, and pass the fail-closed check. Otherwise the one in force stays.
pub fn admit_allowlist(loaded: Result<Allowlist, String>, secret_configured: bool) -> (r: Result<
    Allowlist,
    AllowlistError,
>)
    ensures
        match loaded {
            Err(why) => r == Err::<Allowlist, AllowlistError>(AllowlistError::Load(why)),
            Ok(a) => {
                &&& r is Ok <==> (secret_configured || !some_target_requires_auth(a@))
                &&& r matches Ok(b) ==> b == a
                &&& r matches Err(e) ==> (e matches AllowlistError::FailClosed(f)
                    && names_protected_alias(a@, f))
            },
        },
{
    match loaded {
        Err(why) => Err(AllowlistError::Load(why)),
        Ok(a) => match check_fail_closed(&a, secret_configured) {
            Ok(()) => Ok(a),
            Err(e) => Err(AllowlistError::FailClosed(e)),
        },
    }
}

/// The kinds of change that the file watcher reports.
#[derive(Debug, Clone, Copy, PartialEq, Eq)]
pub enum WatchEventKind {
    Any,
    Access,
    Create,
    Modify,
    Remove,
    Other,
}

/// The allowlist file is read again when it was created or modified.
pub open spec fn spec_should_reload(kind: WatchEventKind) -> bool {
    kind is Create || kind is Modify
}

/// The allowlist file is read again when it was created or modified.
pub fn should_reload(kind: WatchEventKind) -> (r: bool)
    ensures
        r == spec_should_reload(kind),
{
    match kind {
        WatchEventKind::Create | WatchEventKind::Modify => true,
        _ => false,
    }
}

/// An allowlist may be put in force: a secret is configured, or no target
/// asks for a token.
pub open spec fn admissible(targets: Map<Seq<char>, TargetView>, secret_configured: bool) -> bool {
    secret_configured || !some_target_requires_auth(targets)
}

/// A reloaded allowlist, or why reading it failed, as plain values.
pub open spec fn reloaded_view(reloaded: Option<Result<Allowlist, String>>) -> Option<
    Result<Map<Seq<char>, TargetView>, Seq<char>>,
> {
    match reloaded {
        Some(Ok(a)) => Some(Ok(a@)),
        Some(Err(why)) => Some(Err(why@)),
        None => None,
    }
}

/// The allowlist in force after the watcher reports a change of `kind`, with
/// the file read again (`reloaded`) when that change calls for it: it is
/// replaced only by an admissible reload, and kept otherwise.
pub open spec fn spec_next_in_force(
    current: Map<Seq<char>, TargetView>,
    kind: WatchEventKind,
    reloaded: Option<Result<Map<Seq<char>, TargetView>, Seq<char>>>,
    secret_configured: bool,
) -> Map<Seq<char>, TargetView> {
    match reloaded {
        Some(Ok(a)) => if spec_should_reload(kind) && admissible(a, secret_configured) {
            a
        } else {
            current
        },
        _ => current,
    }
}

/// One step of the watcher: the allowlist in force after a change of `kind`
/// is reported, given the file read again when `should_reload(kind)`, and the
/// error of a refused reload.
pub fn next_in_force(
    current: Arc<Allowlist>,
    kind: WatchEventKind,
    reloaded: Option<Result<Allowlist, String>>,
    secret_configured: bool,
) -> (r: (Arc<Allowlist>, Option<AllowlistError>))
    ensures
        (*r.0)@ == spec_next_in_force(current@, kind, reloaded_view(reloaded), secret_configured),
        !spec_should_reload(kind) ==> r.0 == current && r.1 is None,
        spec_should_reload(kind) ==> match reloaded {
            None => r.0 == current && r.1 is None,
            Some(Err(why)) => r.0 == current && r.1 == Some(AllowlistError::Load(why)),
            Some(Ok(a)) => if admissible(a@, secret_configured) {
                *r.0 == a && r.1 is None
            } else {
                &&& r.0 == current
                &&& r.1 matches Some(AllowlistError::FailClosed(f))
                &&& names_protected_alias(a@, f)
            },
        },
{
    if !should_reload(kind) {
        return (current, None);
    }
    match reloaded {
        None => (current, None),
        Some(loaded) => match admit_allowlist(loaded, secret_configured) {
            Ok(a) => (Arc::new(a), None),
            Err(e) => (current, Some(e)),
        },
    }
}

/// The allowlist in force after a run of watcher steps from `initial`.
pub open spec fn in_force_after(
    initial: Map<Seq<char>, TargetView>,
    steps: Seq<(WatchEventKind, Option<Result<Map<Seq<char>, TargetView>, Seq<char>>>)>,
    secret_configured: bool,
) -> Map<Seq<char>, TargetView>
    decreases steps.len(),
{
    if steps.len() == 0 {
        initial
    } else {
        spec_next_in_force(
            in_force_after(initial, steps.drop_last(), secret_configured),
            steps.last().0,
            steps.last().1,
            secret_configured,
        )
    }
}

/// Whatever the watcher reports, the allowlist in force is the initial one
/// or an admissible allowlist read again after a creation or modification of
/// the file: failed or refused reloads and other changes never alter it.
pub proof fn law_in_force_is_initial_or_admitted_reload(
    initial: Map<Seq<char>, TargetView>,
    steps: Seq<(WatchEventKind, Option<Result<Map<Seq<char>, TargetView>, Seq<char>>>)>,
    secret_configured: bool,
)
    ensures
        ({
            let m = in_force_after(initial, steps, secret_configured);
            ||| m == initial
            ||| exists|i: int|
                0 <= i < steps.len() && spec_should_reload(#[trigger] steps[i].0) && steps[i].1
                    == Some(Ok::<Map<Seq<char>, TargetView>, Seq<char>>(m)) && admissible(
                    m,
                    secret_configured,
                )
        }),
    decreases steps.len(),
{
    if steps.len() > 0 {
        let prev = steps.drop_last();
        law_in_force_is_initial_or_admitted_reload(initial, prev, secret_configured);
        let m0 = in_force_after(initial, prev, secret_configured);
        let m = in_force_after(initial, steps, secret_configured);
        let n = steps.len() - 1;
        if m != m0 {
            assert(steps[n].0 == steps.last().0);
            assert(spec_should_reload(steps[n].0));
        } else if m0 != initial {
            let i = choose|i: int|
                0 <= i < prev.len() && spec_should_reload(#[trigger] prev[i].0) && prev[i].1
                    == Some(Ok::<Map<Seq<char>, TargetView>, Seq<char>>(m0)) && admissible(
                    m0,
                    secret_configured,
                );
            assert(steps[i] == prev[i]);
        }
    }
}

/// What a write gives back: once `insert` has mapped `alias` to `target`,
/// `get` finds `target` under `alias`, and finds under every other alias
/// what it found before.
pub proof fn law_lookup_after_insert(
    before: Allowlist,
    after: Allowlist,
    alias: Seq<char>,
    target: TargetView,
    other: Seq<char>,
)
    requires
        after@ == before@.insert(alias, target),
        other != alias,
    ensures
        after@.contains_key(alias),
        after@[alias] == target,
        after@.contains_key(other) == before@.contains_key(other),
        before@.contains_key(other) ==> after@[other] == before@[other],
{
}

} // verus!
