//! Safe roster entries from a local host's agent declarations.
//!
//! A declaration names the agent, the harness it runs, and optionally the
//! directory it works in. A host advertises its declarations as worker specs;
//! one placed in a directory other than the host's is refused with a problem
//! for the operator, and a host with nothing valid to advertise falls back to
//! seeds for its detected harnesses. A seed never takes the id of a dropped
//! declaration, nor of another seed.

use vstd::prelude::*;
use vstd::set_lib::lemma_len_subset;

use crate::text::{concat, decimal, lemma_decimal_injective, lemma_decimal_len, push_decimal, str_eq};

verus! {

/// What a fallback id puts between the seed's own id and its number.
pub open spec fn fallback_infix() -> Seq<char> {
    seq!['-', 'f', 'a', 'l', 'l', 'b', 'a', 'c', 'k', '-']
}

/// The `k`-th fallback for the id `orig`: `orig-fallback-k`.
pub open spec fn fallback_id(orig: Seq<char>, k: nat) -> Seq<char> {
    orig + fallback_infix() + decimal(k)
}

/// The first suffix from `k` on whose fallback `used` does not hold, looking no
/// further than one past `used`'s length.
pub open spec fn free_suffix(orig: Seq<char>, used: Seq<Seq<char>>, k: nat) -> nat
    decreases used.len() + 1 - k,
{
    if k > used.len() || !used.contains(fallback_id(orig, k)) {
        k
    } else {
        free_suffix(orig, used, k + 1)
    }
}

/// The id a seed with id `orig` takes when `used` is taken: its own if free,
/// else its first free fallback.
pub open spec fn fresh_id(orig: Seq<char>, used: Seq<Seq<char>>) -> Seq<char> {
    if used.contains(orig) {
        fallback_id(orig, free_suffix(orig, used, 1))
    } else {
        orig
    }
}

/// The ids seeds with ids `ids` take, in order, each taking the ids before it
/// and `used` as taken.
pub open spec fn seed_ids(ids: Seq<Seq<char>>, used: Seq<Seq<char>>) -> Seq<Seq<char>>
    decreases ids.len(),
{
    if ids.len() == 0 {
        Seq::empty()
    } else {
        let id = fresh_id(ids[0], used);
        seq![id] + seed_ids(ids.drop_first(), used.push(id))
    }
}

/// `orig` and its first `n` fallbacks.
pub open spec fn fallback_set(orig: Seq<char>, n: nat) -> Set<Seq<char>>
    decreases n,
{
    if n == 0 {
        set![orig]
    } else {
        fallback_set(orig, (n - 1) as nat).insert(fallback_id(orig, n))
    }
}

/// A fallback is longer than the id it stands in for, and fallbacks of one id differ by
/// their number.
proof fn lemma_fallback_distinct(orig: Seq<char>, a: nat, b: nat)
    ensures
        fallback_id(orig, a) != orig,
        fallback_id(orig, a) == fallback_id(orig, b) ==> a == b,
{
    lemma_decimal_len(a);
    lemma_decimal_len(b);
    assert(fallback_id(orig, a).len() > orig.len());
    if fallback_id(orig, a) == fallback_id(orig, b) {
        let skip = orig.len() + fallback_infix().len();
        assert(fallback_id(orig, a).skip(skip as int) =~= decimal(a));
        assert(fallback_id(orig, b).skip(skip as int) =~= decimal(b));
        lemma_decimal_injective(a, b);
    }
}

/// What `fallback_set` holds, and that it holds `n + 1` ids.
proof fn lemma_fallback_set(orig: Seq<char>, n: nat)
    ensures
        fallback_set(orig, n).finite(),
        fallback_set(orig, n).len() == n + 1,
        forall|x: Seq<char>| #[trigger]
            fallback_set(orig, n).contains(x) ==> x == orig || exists|k: nat|
                1 <= k <= n && x == fallback_id(orig, k),
    decreases n,
{
    if n > 0 {
        let m = (n - 1) as nat;
        lemma_fallback_set(orig, m);
        lemma_fallback_distinct(orig, n, 0);
        assert(!fallback_set(orig, m).contains(fallback_id(orig, n))) by {
            if fallback_set(orig, m).contains(fallback_id(orig, n)) {
                let x = fallback_id(orig, n);
                if x != orig {
                    let k = choose|k: nat| 1 <= k <= m && x == fallback_id(orig, k);
                    lemma_fallback_distinct(orig, n, k);
                }
            }
        }
    }
}

/// `orig` and its first `n` fallbacks all in `used` fill more than `n` of it.
proof fn lemma_pigeonhole(orig: Seq<char>, used: Seq<Seq<char>>, n: nat)
    requires
        used.contains(orig),
        forall|k: nat| 1 <= k <= n ==> used.contains(#[trigger] fallback_id(orig, k)),
    ensures
        n + 1 <= used.len(),
{
    lemma_fallback_set(orig, n);
    vstd::seq_lib::seq_to_set_is_finite(used);
    assert(fallback_set(orig, n).subset_of(used.to_set())) by {
        assert forall|x: Seq<char>| fallback_set(orig, n).contains(x) implies used.to_set().contains(
            x,
        ) by {
            if x != orig {
                let k = choose|k: nat| 1 <= k <= n && x == fallback_id(orig, k);
                assert(used.contains(fallback_id(orig, k)));
            }
        }
    }
    lemma_len_subset(fallback_set(orig, n), used.to_set());
    used.lemma_cardinality_of_set();
}

/// What the search for a free suffix finds.
proof fn lemma_free_suffix(orig: Seq<char>, used: Seq<Seq<char>>, k: nat)
    requires
        1 <= k <= used.len() + 1,
    ensures
        k <= free_suffix(orig, used, k) <= used.len() + 1,
        forall|m: nat|
            k <= m < free_suffix(orig, used, k) ==> used.contains(#[trigger] fallback_id(orig, m)),
        free_suffix(orig, used, k) <= used.len() ==> !used.contains(
            fallback_id(orig, free_suffix(orig, used, k)),
        ),
    decreases used.len() + 1 - k,
{
    if k <= used.len() && used.contains(fallback_id(orig, k)) {
        lemma_free_suffix(orig, used, k + 1);
    }
}

/// A fresh id is not taken.
pub proof fn lemma_fresh_id_is_free(orig: Seq<char>, used: Seq<Seq<char>>)
    ensures
        !used.contains(fresh_id(orig, used)),
{
    if used.contains(orig) {
        lemma_free_suffix(orig, used, 1);
        let r = free_suffix(orig, used, 1);
        if r == used.len() + 1 {
            lemma_pigeonhole(orig, used, used.len());
        }
    }
}

/// Seeds never take a taken id, and never share one.
pub proof fn lemma_seed_ids_distinct(ids: Seq<Seq<char>>, used: Seq<Seq<char>>)
    ensures
        seed_ids(ids, used).len() == ids.len(),
        forall|i: int|
            0 <= i < ids.len() ==> !used.contains(#[trigger] seed_ids(ids, used)[i]),
        forall|i: int, j: int|
            0 <= i < j < ids.len() ==> seed_ids(ids, used)[i] != seed_ids(ids, used)[j],
    decreases ids.len(),
{
    if ids.len() > 0 {
        let id = fresh_id(ids[0], used);
        lemma_fresh_id_is_free(ids[0], used);
        lemma_seed_ids_distinct(ids.drop_first(), used.push(id));
        let rest = seed_ids(ids.drop_first(), used.push(id));
        let all = seed_ids(ids, used);
        assert(all =~= seq![id] + rest);
        assert forall|i: int| 0 <= i < ids.len() implies !used.contains(#[trigger] all[i]) by {
            if i > 0 {
                assert(all[i] == rest[i - 1]);
                assert(!used.push(id).contains(rest[i - 1]));
                if used.contains(rest[i - 1]) {
                    let j = choose|j: int| 0 <= j < used.len() && used[j] == rest[i - 1];
                    assert(used.push(id)[j] == rest[i - 1]);
                }
            }
        }
        assert forall|i: int, j: int| 0 <= i < j < ids.len() implies all[i] != all[j] by {
            assert(all[j] == rest[j - 1]);
            if i == 0 {
                assert(used.push(id)[used.len() as int] == id);
            } else {
                assert(all[i] == rest[i - 1]);
            }
        }
    }
}


/// The directory a declaration names: as written, and as the host resolves it.
#[derive(Debug, Clone, PartialEq, Eq)]
pub struct DeclaredWorkspace {
    /// The path as written in the config.
    pub path: String,
    /// The path resolved the way the host resolves its own.
    pub resolved: String,
}

/// One agent declared in the config.
#[derive(Debug, Clone, PartialEq, Eq)]
pub struct AgentDeclaration {
    /// The roster id.
    pub agent_id: String,
    /// The name the operator gave it, if any.
    pub name: Option<String>,
    /// The harness it runs.
    pub harness: String,
    /// The directory it names, if it names one.
    pub workspace: Option<DeclaredWorkspace>,
    /// Its roles.
    pub roles: Vec<String>,
    /// How many sessions it may run at once.
    pub max_sessions: usize,
}

/// A worker spec the host advertises to the hub.
#[derive(Debug, Clone, PartialEq, Eq)]
pub struct WorkerSpec {
    /// The roster id.
    pub id: String,
    /// The host it runs on.
    pub host_id: String,
    /// Where the hub reaches it.
    pub address: String,
    /// What the roster calls it.
    pub name: String,
    /// A one-line description.
    pub description: String,
    /// The harness it runs.
    pub harness: String,
    /// The directory it works in: always its host's.
    pub workspace_path: String,
    /// Its roles.
    pub roles: Vec<String>,
    /// How many sessions it may run at once.
    pub max_sessions: usize,
}

/// The mathematical value of an [`AgentDeclaration`].
pub struct DeclView {
    /// See [`AgentDeclaration::agent_id`].
    pub agent_id: Seq<char>,
    /// See [`AgentDeclaration::name`].
    pub name: Option<Seq<char>>,
    /// See [`AgentDeclaration::harness`].
    pub harness: Seq<char>,
    /// The written and resolved path of [`AgentDeclaration::workspace`].
    pub workspace: Option<(Seq<char>, Seq<char>)>,
    /// See [`AgentDeclaration::roles`].
    pub roles: Seq<Seq<char>>,
    /// See [`AgentDeclaration::max_sessions`].
    pub max_sessions: usize,
}

/// The mathematical value of a [`WorkerSpec`].
pub struct WorkerView {
    /// See [`WorkerSpec::id`].
    pub id: Seq<char>,
    /// See [`WorkerSpec::host_id`].
    pub host_id: Seq<char>,
    /// See [`WorkerSpec::address`].
    pub address: Seq<char>,
    /// See [`WorkerSpec::name`].
    pub name: Seq<char>,
    /// See [`WorkerSpec::description`].
    pub description: Seq<char>,
    /// See [`WorkerSpec::harness`].
    pub harness: Seq<char>,
    /// See [`WorkerSpec::workspace_path`].
    pub workspace_path: Seq<char>,
    /// See [`WorkerSpec::roles`].
    pub roles: Seq<Seq<char>>,
    /// See [`WorkerSpec::max_sessions`].
    pub max_sessions: usize,
}

/// The characters of each string.
pub open spec fn strs(v: Seq<String>) -> Seq<Seq<char>> {
    v.map_values(|s: String| s@)
}

impl View for AgentDeclaration {
    type V = DeclView;

    open spec fn view(&self) -> DeclView {
        DeclView {
            agent_id: self.agent_id@,
            name: match self.name {
                Some(n) => Some(n@),
                None => None,
            },
            harness: self.harness@,
            workspace: match self.workspace {
                Some(w) => Some((w.path@, w.resolved@)),
                None => None,
            },
            roles: strs(self.roles@),
            max_sessions: self.max_sessions,
        }
    }
}

impl View for WorkerSpec {
    type V = WorkerView;

    open spec fn view(&self) -> WorkerView {
        WorkerView {
            id: self.id@,
            host_id: self.host_id@,
            address: self.address@,
            name: self.name@,
            description: self.description@,
            harness: self.harness@,
            workspace_path: self.workspace_path@,
            roles: strs(self.roles@),
            max_sessions: self.max_sessions,
        }
    }
}

/// The views of a list of declarations.
pub open spec fn decl_views(v: Seq<AgentDeclaration>) -> Seq<DeclView> {
    v.map_values(|d: AgentDeclaration| d@)
}

/// The views of a list of worker specs.
pub open spec fn worker_views(v: Seq<WorkerSpec>) -> Seq<WorkerView> {
    v.map_values(|w: WorkerSpec| w@)
}

/// The ids of a list of declarations.
pub open spec fn decl_ids(v: Seq<DeclView>) -> Seq<Seq<char>> {
    v.map_values(|d: DeclView| d.agent_id)
}

/// A copy of a list of strings.
fn clone_strings(v: &Vec<String>) -> (r: Vec<String>)
    ensures
        r@ == v@,
{
    let mut r: Vec<String> = Vec::new();
    let mut i: usize = 0;
    while i < v.len()
        invariant
            i <= v@.len(),
            r@ == v@.take(i as int),
        decreases v@.len() - i,
    {
        r.push(v[i].clone());
        assert(v@.take(i + 1) =~= v@.take(i as int).push(v@[i as int]));
        i += 1;
    }
    assert(v@.take(v@.len() as int) =~= v@);
    r
}

impl AgentDeclaration {
    /// A copy of this declaration.
    pub fn cloned(&self) -> (r: Self)
        ensures
            r@ == self@,
    {
        AgentDeclaration {
            agent_id: self.agent_id.clone(),
            name: match &self.name {
                Some(n) => Some(n.clone()),
                None => None,
            },
            harness: self.harness.clone(),
            workspace: match &self.workspace {
                Some(w) => Some(DeclaredWorkspace { path: w.path.clone(), resolved: w.resolved.clone() }),
                None => None,
            },
            roles: clone_strings(&self.roles),
            max_sessions: self.max_sessions,
        }
    }
}

/// Whether `used` holds `id`.
fn holds(used: &Vec<String>, id: &str) -> (r: bool)
    ensures
        r == strs(used@).contains(id@),
{
    let mut i: usize = 0;
    while i < used.len()
        invariant
            i <= used@.len(),
            forall|j: int| 0 <= j < i ==> strs(used@)[j] != id@,
        decreases used@.len() - i,
    {
        if str_eq(used[i].as_str(), id) {
            assert(strs(used@)[i as int] == id@);
            return true;
        }
        i += 1;
    }
    false
}

/// The search for a free suffix stops at the first free one.
proof fn lemma_free_suffix_is(orig: Seq<char>, used: Seq<Seq<char>>, k: nat, r: nat)
    requires
        k <= r <= used.len(),
        forall|m: nat| k <= m < r ==> used.contains(#[trigger] fallback_id(orig, m)),
        !used.contains(fallback_id(orig, r)),
    ensures
        free_suffix(orig, used, k) == r,
    decreases r - k,
{
    if k < r {
        lemma_free_suffix_is(orig, used, k + 1, r);
    }
}

/// The id `orig` takes when `used` is taken, appended to `used`.
fn take_fresh_id(used: &mut Vec<String>, orig: &str) -> (id: String)
    ensures
        id@ == fresh_id(orig@, strs(old(used)@)),
        final(used)@ == old(used)@.push(id),
{
    let ghost taken = strs(used@);
    let mut id = orig.to_string();
    let mut suffix: usize = 0;
    let stem = concat(orig, "-fallback-");
    proof {
        reveal_strlit("-fallback-");
    }
    assert(stem@ == orig@ + fallback_infix());
    while holds(used, id.as_str())
        invariant
            taken == strs(used@),
            stem@ == orig@ + fallback_infix(),
            suffix <= taken.len(),
            suffix == 0 ==> id@ == orig@,
            suffix > 0 ==> id@ == fallback_id(orig@, suffix as nat) && taken.contains(orig@),
            forall|m: nat| 1 <= m < suffix ==> taken.contains(#[trigger] fallback_id(orig@, m)),
        decreases taken.len() - suffix,
    {
        if suffix == used.len() {
            proof {
                if suffix == 0 {
                    assert(taken.contains(orig@));
                } else {
                    assert forall|m: nat| 1 <= m <= suffix implies taken.contains(
                        #[trigger] fallback_id(orig@, m),
                    ) by {
                        if m == suffix {
                            assert(taken.contains(id@));
                        }
                    }
                    lemma_pigeonhole(orig@, taken, suffix as nat);
                }
            }
        }
        proof {
            if suffix == 0 {
                assert(taken.contains(orig@));
            }
        }
        let ghost previous = suffix;
        suffix += 1;
        let mut next = crate::text::to_string(stem.as_str());
        push_decimal(&mut next, suffix);
        id = next;
        proof {
            assert(id@ =~= fallback_id(orig@, suffix as nat));
            assert forall|m: nat| 1 <= m < suffix implies taken.contains(#[trigger] fallback_id(orig@, m)) by {
                if m == previous {
                }
            }
        }
    }
    proof {
        if suffix > 0 {
            lemma_free_suffix_is(orig@, taken, 1, suffix as nat);
        }
    }
    let out = id.clone();
    used.push(id);
    out
}


/// The seeds with their ids made fresh against `forbidden` and each other.
pub open spec fn spec_seed_for(seeds: Seq<DeclView>, forbidden: Seq<Seq<char>>) -> Seq<DeclView> {
    let ids = seed_ids(decl_ids(seeds), forbidden);
    Seq::new(seeds.len(), |i: int| DeclView { agent_id: ids[i], ..seeds[i] })
}

/// `seed_ids` of a longer list starts as it does for the shorter one.
proof fn lemma_seed_ids_push(ids: Seq<Seq<char>>, used: Seq<Seq<char>>, x: Seq<char>)
    ensures
        seed_ids(ids.push(x), used) == seed_ids(ids, used) + seq![
            fresh_id(x, used + seed_ids(ids, used)),
        ],
    decreases ids.len(),
{
    if ids.len() == 0 {
        assert(ids.push(x).drop_first() =~= Seq::<Seq<char>>::empty());
        assert(ids.push(x)[0] == x);
        assert(used + seed_ids(ids, used) =~= used);
        assert(seed_ids(Seq::<Seq<char>>::empty(), used.push(fresh_id(x, used))) =~= Seq::<
            Seq<char>,
        >::empty());
        assert(seed_ids(ids.push(x), used) =~= seq![fresh_id(x, used)]);
    } else {
        let id = fresh_id(ids[0], used);
        assert(ids.push(x).drop_first() =~= ids.drop_first().push(x));
        lemma_seed_ids_push(ids.drop_first(), used.push(id), x);
        assert(used.push(id) + seed_ids(ids.drop_first(), used.push(id)) =~= used + seed_ids(
            ids,
            used,
        ));
        assert(seed_ids(ids.push(x), used) =~= seed_ids(ids, used) + seq![
            fresh_id(x, used + seed_ids(ids, used)),
        ]);
    }
}

/// Give each seed an id no forbidden id and no earlier seed has: its own, or
/// its first free `-fallback-N`.
pub fn seed_for(seeds: &[AgentDeclaration], forbidden: &[String]) -> (r: Vec<AgentDeclaration>)
    ensures
        decl_views(r@) == spec_seed_for(decl_views(seeds@), strs(forbidden@)),
{
    let mut used: Vec<String> = Vec::new();
    let mut k: usize = 0;
    while k < forbidden.len()
        invariant
            k <= forbidden@.len(),
            used@.len() == k,
            strs(used@) == strs(forbidden@).take(k as int),
        decreases forbidden@.len() - k,
    {
        used.push(forbidden[k].clone());
        assert(used@[k as int] == forbidden@[k as int]);
        assert(strs(used@) =~= strs(forbidden@).take(k + 1));
        k += 1;
    }
    assert(strs(forbidden@).take(forbidden@.len() as int) =~= strs(forbidden@));
    let ghost start = strs(used@);
    let ghost ids = decl_ids(decl_views(seeds@));
    let mut out: Vec<AgentDeclaration> = Vec::new();
    let mut i: usize = 0;
    while i < seeds.len()
        invariant
            i <= seeds@.len(),
            start == strs(forbidden@),
            ids == decl_ids(decl_views(seeds@)),
            out@.len() == i,
            decl_ids(decl_views(out@)) == seed_ids(ids.take(i as int), start),
            strs(used@) == start + seed_ids(ids.take(i as int), start),
            forall|j: int|
                0 <= j < i ==> (#[trigger] out@[j])@ == (DeclView {
                    agent_id: out@[j]@.agent_id,
                    ..seeds@[j]@
                }),
        decreases seeds@.len() - i,
    {
        proof {
            lemma_seed_ids_push(ids.take(i as int), start, ids[i as int]);
            assert(ids.take(i + 1) =~= ids.take(i as int).push(ids[i as int]));
            assert(ids[i as int] == seeds@[i as int].agent_id@);
        }
        let ghost before = strs(used@);
        let id = take_fresh_id(&mut used, seeds[i].agent_id.as_str());
        proof {
            assert(strs(used@) =~= before.push(id@));
        }
        let mut d = seeds[i].cloned();
        d.agent_id = id;
        out.push(d);
        proof {
            assert(strs(used@) =~= start + seed_ids(ids.take(i + 1), start));
            assert(decl_ids(decl_views(out@)) =~= seed_ids(ids.take(i + 1), start));
        }
        i += 1;
    }
    proof {
        assert(ids.take(seeds@.len() as int) =~= ids);
        lemma_seed_ids_distinct(ids, start);
        assert(decl_views(out@) =~= spec_seed_for(decl_views(seeds@), strs(forbidden@)));
    }
    out
}


/// How many of `decls` run `harness`.
pub open spec fn harness_count(decls: Seq<DeclView>, harness: Seq<char>) -> nat {
    decls.filter(|d: DeclView| d.harness == harness).len()
}

/// Whether another of `decls` runs the same harness as `d`.
pub open spec fn spec_shares_harness(decls: Seq<DeclView>, d: DeclView) -> bool {
    harness_count(decls, d.harness) > 1
}

/// Whether another declaration uses the same harness.
pub fn shares_harness(declarations: &[AgentDeclaration], declaration: &AgentDeclaration) -> (r:
    bool)
    ensures
        r == spec_shares_harness(decl_views(declarations@), declaration@),
{
    let ghost all = decl_views(declarations@);
    let ghost pred = |d: DeclView| d.harness == declaration@.harness;
    let mut count: usize = 0;
    let mut i: usize = 0;
    while i < declarations.len()
        invariant
            i <= declarations@.len(),
            all == decl_views(declarations@),
            pred == (|d: DeclView| d.harness == declaration@.harness),
            count == all.take(i as int).filter(pred).len(),
            count <= i,
        decreases declarations@.len() - i,
    {
        proof {
            assert(all.take(i + 1) =~= all.take(i as int).push(all[i as int]));
            all.take(i as int).lemma_filter_push(all[i as int], pred);
        }
        if str_eq(declarations[i].harness.as_str(), declaration.harness.as_str()) {
            count += 1;
        }
        i += 1;
    }
    assert(all.take(declarations@.len() as int) =~= all);
    count > 1
}

/// What the roster calls `d`: its own name, else the host's name, qualified
/// by its id when its harness is shared and by its harness otherwise, unless
/// it is the host's only declaration.
pub open spec fn spec_label(decls: Seq<DeclView>, d: DeclView, name: Seq<char>) -> Seq<char> {
    match d.name {
        Some(n) => n,
        None => if decls.len() == 1 {
            name
        } else if spec_shares_harness(decls, d) {
            name + " · "@ + d.agent_id
        } else {
            name + " · "@ + d.harness
        },
    }
}

/// The worker spec `d` is advertised as, on the host at `address` whose
/// directory is `workspace` and whose name is `name`.
pub open spec fn spec_worker(
    decls: Seq<DeclView>,
    d: DeclView,
    address: Seq<char>,
    workspace: Seq<char>,
    name: Seq<char>,
) -> WorkerView {
    WorkerView {
        id: d.agent_id,
        host_id: address,
        address: address,
        name: spec_label(decls, d, name),
        description: d.harness + " on this machine · "@ + workspace,
        harness: d.harness,
        workspace_path: workspace,
        roles: d.roles,
        max_sessions: d.max_sessions,
    }
}

/// The worker specs for `decls`, in order.
pub open spec fn spec_specs_from(
    decls: Seq<DeclView>,
    address: Seq<char>,
    workspace: Seq<char>,
    name: Seq<char>,
) -> Seq<WorkerView> {
    decls.map_values(|d: DeclView| spec_worker(decls, d, address, workspace, name))
}

/// Convert declarations to the roster format consumed by the hub.
pub fn specs_from(
    declarations: &[AgentDeclaration],
    address: &str,
    workspace: &str,
    name: &str,
) -> (r: Vec<WorkerSpec>)
    ensures
        worker_views(r@) == spec_specs_from(decl_views(declarations@), address@, workspace@, name@),
{
    let ghost all = decl_views(declarations@);
    let single = declarations.len() == 1;
    let mut out: Vec<WorkerSpec> = Vec::new();
    let mut i: usize = 0;
    while i < declarations.len()
        invariant
            i <= declarations@.len(),
            all == decl_views(declarations@),
            single == (declarations@.len() == 1),
            out@.len() == i,
            worker_views(out@) == spec_specs_from(all, address@, workspace@, name@).take(i as int),
        decreases declarations@.len() - i,
    {
        let d = &declarations[i];
        assert(all[i as int] == d@);
        let label = match &d.name {
            Some(n) => n.clone(),
            None => if single {
                name.to_string()
            } else if shares_harness(declarations, d) {
                let l = concat(name, " · ");
                concat(l.as_str(), d.agent_id.as_str())
            } else {
                let l = concat(name, " · ");
                concat(l.as_str(), d.harness.as_str())
            },
        };
        let description = concat(d.harness.as_str(), " on this machine · ");
        let description = concat(description.as_str(), workspace);
        let spec = WorkerSpec {
            id: d.agent_id.clone(),
            host_id: address.to_string(),
            address: address.to_string(),
            name: label,
            description,
            harness: d.harness.clone(),
            workspace_path: workspace.to_string(),
            roles: clone_strings(&d.roles),
            max_sessions: d.max_sessions,
        };
        proof {
            assert(spec@.name =~= spec_label(all, all[i as int], name@));
            assert(spec@ == spec_worker(all, all[i as int], address@, workspace@, name@));
        }
        let ghost expected = spec_specs_from(all, address@, workspace@, name@);
        assert(expected[i as int] == spec_worker(all, all[i as int], address@, workspace@, name@));
        out.push(spec);
        assert(worker_views(out@)[i as int] == expected[i as int]);
        assert(worker_views(out@) =~= expected.take(i + 1));
        i += 1;
    }
    assert(spec_specs_from(all, address@, workspace@, name@).take(declarations@.len() as int)
        =~= spec_specs_from(all, address@, workspace@, name@));
    out
}

/// Whether `d` works in the host's directory: it names none, or names one
/// that resolves to the host's.
pub open spec fn placed(d: DeclView, host_workspace: Seq<char>) -> bool {
    match d.workspace {
        Some((_, resolved)) => resolved == host_workspace,
        None => true,
    }
}

/// The problem reported for a declaration placed in a directory other than
/// its host's.
pub open spec fn placement_problem(d: DeclView, host_id: Seq<char>, host_workspace: Seq<char>) -> Seq<
    char,
> {
    let declared = (d.workspace->0).0;
    "agent \""@ + d.agent_id + "\" is declared in "@ + declared + ", but host \""@ + host_id
        + "\" runs tasks in \\\n         "@ + host_workspace
        + " — every agent on a host works in the host's directory, so declare a \\\n         [[hosts]] entry for "@
        + declared + " and put this agent on it"@
}

/// Reject a declaration that names a workspace other than its host's.
pub fn check_placement(declaration: &AgentDeclaration, host_id: &str, host_workspace: &str) -> (r:
    Result<(), String>)
    ensures
        r is Ok <==> placed(declaration@, host_workspace@),
        r matches Err(m) ==> m@ == placement_problem(declaration@, host_id@, host_workspace@),
{
    let w = match &declaration.workspace {
        Some(w) => w,
        None => return Ok(()),
    };
    if str_eq(w.resolved.as_str(), host_workspace) {
        return Ok(());
    }
    let m = concat("agent \"", declaration.agent_id.as_str());
    let m = concat(m.as_str(), "\" is declared in ");
    let m = concat(m.as_str(), w.path.as_str());
    let m = concat(m.as_str(), ", but host \"");
    let m = concat(m.as_str(), host_id);
    let m = concat(m.as_str(), "\" runs tasks in \\\n         ");
    let m = concat(m.as_str(), host_workspace);
    let m = concat(
        m.as_str(),
        " — every agent on a host works in the host's directory, so declare a \\\n         [[hosts]] entry for ",
    );
    let m = concat(m.as_str(), w.path.as_str());
    let m = concat(m.as_str(), " and put this agent on it");
    assert(m@ =~= placement_problem(declaration@, host_id@, host_workspace@));
    Err(m)
}


/// The declarations a host advertises: its own when some are placed in its
/// directory; otherwise seeds that take no dropped declaration's id. And the
/// problems, one per declaration dropped, in order.
pub open spec fn spec_advertised(
    mine: Seq<DeclView>,
    seeds: Seq<DeclView>,
    host_workspace: Seq<char>,
) -> Seq<DeclView> {
    let kept = mine.filter(|d: DeclView| placed(d, host_workspace));
    let dropped = mine.filter(|d: DeclView| !placed(d, host_workspace));
    if mine.len() == 0 {
        spec_seed_for(seeds, Seq::empty())
    } else if kept.len() == 0 {
        spec_seed_for(seeds, decl_ids(dropped))
    } else {
        kept
    }
}

/// The problems of the declarations dropped for their placement, in order.
pub open spec fn spec_problems(mine: Seq<DeclView>, address: Seq<char>, host_workspace: Seq<char>) -> Seq<
    Seq<char>,
> {
    mine.filter(|d: DeclView| !placed(d, host_workspace)).map_values(
        |d: DeclView| placement_problem(d, address, host_workspace),
    )
}

/// Turn this host's declarations `mine` into advertised worker specs and
/// placement problems, falling back to `seeds` (the declarations seeded for
/// the harnesses detected here) without letting a seed impersonate a dropped
/// declaration.
pub fn specs_for(
    address: &str,
    host_workspace: &str,
    name: &str,
    mine: &[AgentDeclaration],
    seeds: &[AgentDeclaration],
) -> (r: (Vec<WorkerSpec>, Vec<String>))
    ensures
        worker_views(r.0@) == spec_specs_from(
            spec_advertised(decl_views(mine@), decl_views(seeds@), host_workspace@),
            address@,
            host_workspace@,
            name@,
        ),
        strs(r.1@) == spec_problems(decl_views(mine@), address@, host_workspace@),
{
    let ghost all = decl_views(mine@);
    let ghost ok = |d: DeclView| placed(d, host_workspace@);
    let ghost bad = |d: DeclView| !placed(d, host_workspace@);
    if mine.len() == 0 {
        let empty: Vec<String> = Vec::new();
        let fallback = seed_for(seeds, empty.as_slice());
        proof {
            assert(strs(empty@) =~= Seq::<Seq<char>>::empty());
            assert(all.filter(bad) =~= Seq::<DeclView>::empty()) by {
                reveal(Seq::filter);
            }
            assert(spec_problems(all, address@, host_workspace@) =~= Seq::<Seq<char>>::empty());
        }
        let specs = specs_from(fallback.as_slice(), address, host_workspace, name);
        assert(strs(empty@) =~= Seq::<Seq<char>>::empty());
        return (specs, empty);
    }
    let mut kept: Vec<AgentDeclaration> = Vec::new();
    let mut problems: Vec<String> = Vec::new();
    let mut dropped: Vec<String> = Vec::new();
    let mut i: usize = 0;
    while i < mine.len()
        invariant
            i <= mine@.len(),
            all == decl_views(mine@),
            ok == (|d: DeclView| placed(d, host_workspace@)),
            bad == (|d: DeclView| !placed(d, host_workspace@)),
            decl_views(kept@) == all.take(i as int).filter(ok),
            dropped@.len() == all.take(i as int).filter(bad).len(),
            problems@.len() == all.take(i as int).filter(bad).len(),
            strs(dropped@) == decl_ids(all.take(i as int).filter(bad)),
            strs(problems@) == all.take(i as int).filter(bad).map_values(
                |d: DeclView| placement_problem(d, address@, host_workspace@),
            ),
        decreases mine@.len() - i,
    {
        proof {
            assert(all.take(i + 1) =~= all.take(i as int).push(all[i as int]));
            all.take(i as int).lemma_filter_push(all[i as int], ok);
            all.take(i as int).lemma_filter_push(all[i as int], bad);
            assert(all[i as int] == mine@[i as int]@);
        }
        match check_placement(&mine[i], address, host_workspace) {
            Ok(()) => {
                kept.push(mine[i].cloned());
                assert(decl_views(kept@) =~= all.take(i + 1).filter(ok));
            },
            Err(problem) => {
                let ghost before = all.take(i as int).filter(bad);
                let ghost old_dropped = strs(dropped@);
                let ghost old_problems = strs(problems@);
                dropped.push(mine[i].agent_id.clone());
                problems.push(problem);
                assert(strs(dropped@) =~= old_dropped.push(all[i as int].agent_id));
                assert(strs(problems@) =~= old_problems.push(
                    placement_problem(all[i as int], address@, host_workspace@),
                ));
                assert(decl_ids(before.push(all[i as int])) =~= decl_ids(before).push(
                    all[i as int].agent_id,
                ));
                assert(before.push(all[i as int]).map_values(
                    |d: DeclView| placement_problem(d, address@, host_workspace@),
                ) =~= before.map_values(
                    |d: DeclView| placement_problem(d, address@, host_workspace@),
                ).push(placement_problem(all[i as int], address@, host_workspace@)));
                assert(all.take(i + 1).filter(bad) == before.push(all[i as int]));
                assert(strs(dropped@)[before.len() as int] == all[i as int].agent_id);
                assert(strs(problems@)[before.len() as int] == placement_problem(
                    all[i as int],
                    address@,
                    host_workspace@,
                ));
                assert(strs(dropped@) =~= decl_ids(all.take(i + 1).filter(bad)));
                assert(strs(problems@) =~= all.take(i + 1).filter(bad).map_values(
                    |d: DeclView| placement_problem(d, address@, host_workspace@),
                ));
            },
        }
        i += 1;
    }
    assert(all.take(mine@.len() as int) =~= all);
    let advertised = if kept.len() == 0 {
        seed_for(seeds, dropped.as_slice())
    } else {
        kept
    };
    let specs = specs_from(advertised.as_slice(), address, host_workspace, name);
    (specs, problems)
}


/// A host never advertises two workers under one id when it falls back to
/// seeds, and no seed takes the id of a declaration dropped for its placement.
pub proof fn lemma_fallback_never_impersonates(
    mine: Seq<DeclView>,
    seeds: Seq<DeclView>,
    host_workspace: Seq<char>,
)
    requires
        mine.filter(|d: DeclView| placed(d, host_workspace)).len() == 0,
    ensures
        ({
            let advertised = spec_advertised(mine, seeds, host_workspace);
            let dropped = decl_ids(mine.filter(|d: DeclView| !placed(d, host_workspace)));
            &&& advertised.len() == seeds.len()
            &&& forall|i: int|
                0 <= i < advertised.len() ==> !dropped.contains(#[trigger] advertised[i].agent_id)
            &&& forall|i: int, j: int|
                0 <= i < j < advertised.len() ==> advertised[i].agent_id != advertised[j].agent_id
        }),
{
    let dropped = decl_ids(mine.filter(|d: DeclView| !placed(d, host_workspace)));
    let forbidden = if mine.len() == 0 {
        Seq::<Seq<char>>::empty()
    } else {
        dropped
    };
    lemma_seed_ids_distinct(decl_ids(seeds), forbidden);
    if mine.len() == 0 {
        assert(mine.filter(|d: DeclView| !placed(d, host_workspace)) =~= Seq::<DeclView>::empty())
            by {
            reveal(Seq::filter);
        }
        assert(dropped =~= Seq::<Seq<char>>::empty());
    }
}

/// Every declaration a host advertises from its own config works in the
/// host's directory; the rest are reported, one problem each.
pub proof fn lemma_advertised_are_placed(
    mine: Seq<DeclView>,
    seeds: Seq<DeclView>,
    address: Seq<char>,
    host_workspace: Seq<char>,
)
    requires
        mine.filter(|d: DeclView| placed(d, host_workspace)).len() > 0,
    ensures
        forall|i: int|
            0 <= i < spec_advertised(mine, seeds, host_workspace).len() ==> placed(
                #[trigger] spec_advertised(mine, seeds, host_workspace)[i],
                host_workspace,
            ),
        spec_problems(mine, address, host_workspace).len() + spec_advertised(
            mine,
            seeds,
            host_workspace,
        ).len() == mine.len(),
{
    let ok = |d: DeclView| placed(d, host_workspace);
    let bad = |d: DeclView| !placed(d, host_workspace);
    lemma_filter_split(mine, host_workspace);
    assert(mine.len() > 0) by {
        if mine.len() == 0 {
            assert(mine.filter(ok) =~= Seq::<DeclView>::empty()) by {
                reveal(Seq::filter);
            }
        }
    }
    assert forall|i: int| 0 <= i < mine.filter(ok).len() implies placed(
        #[trigger] mine.filter(ok)[i],
        host_workspace,
    ) by {
        mine.lemma_filter_pred(ok, i);
    }
}

/// The placed and the misplaced declarations together are all of them.
proof fn lemma_filter_split(mine: Seq<DeclView>, host_workspace: Seq<char>)
    ensures
        mine.filter(|d: DeclView| placed(d, host_workspace)).len() + mine.filter(
            |d: DeclView| !placed(d, host_workspace),
        ).len() == mine.len(),
    decreases mine.len(),
{
    reveal(Seq::filter);
    if mine.len() > 0 {
        lemma_filter_split(mine.drop_last(), host_workspace);
    }
}

} // verus!
