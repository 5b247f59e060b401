//! Picking, among the WARP functions that share a function's GUID, the one that the function's
//! surroundings single out.
use crate::analysis::{
    adjacent_offsets_fit, adjacent_well_formed, AnalysisFunction, FunctionID,
    FunctionSurroundings,
};
use crate::cache::{spec_adjacency_constraints, spec_call_site_constraints, GUIDCache};
use crate::container::{Container, SourceId};
use crate::view_types::{
    add_type_inner, definition_views, defines_itself, is_leaf, traversable, traversal_of,
    traverse_type, view_grows, visiting, ViewTypes,
};
use crate::signature::{
    constraint_views, function_views, Function, FunctionConstraint, FunctionConstraintView,
    FunctionGUID, FunctionView, Type,
};
use vstd::prelude::*;

verus! {

/// A value whose equality to another of its type can be tested in executable code.
pub trait SameValue: View + Sized {
    fn same_value(&self, other: &Self) -> (r: bool)
        ensures
            r == (self@ == other@),
    ;
}

impl SameValue for u128 {
    fn same_value(&self, other: &Self) -> (r: bool) {
        *self == *other
    }
}

impl SameValue for String {
    fn same_value(&self, other: &Self) -> (r: bool) {
        *self == *other
    }
}

/// The views of a sequence of values.
pub open spec fn item_views<T: View>(s: Seq<T>) -> Seq<T::V> {
    s.map_values(|x: T| x@)
}

/// The GUIDs of the constraints in `cs` that have one.
pub open spec fn set_guids(cs: Set<FunctionConstraintView>) -> Set<u128> {
    Set::new(
        |g: u128|
            exists|c: FunctionConstraintView|
                cs.contains(c) && c.guid == Some(FunctionGUID { guid: g }),
    )
}

/// The symbol names of the constraints in `cs` that have a symbol.
pub open spec fn set_names(cs: Set<FunctionConstraintView>) -> Set<Seq<char>> {
    Set::new(
        |n: Seq<char>|
            exists|c: FunctionConstraintView|
                cs.contains(c) && c.symbol is Some && c.symbol->0.name == n,
    )
}

/// The largest of the counts, 0 for none.
pub open spec fn seq_max(s: Seq<nat>) -> nat
    decreases s.len(),
{
    if s.len() == 0 {
        0
    } else {
        let m = seq_max(s.drop_last());
        if s.last() > m {
            s.last()
        } else {
            m
        }
    }
}

/// Entry `i` is positive and larger than every other entry.
pub open spec fn is_unique_best(s: Seq<nat>, i: int) -> bool {
    &&& 0 <= i < s.len()
    &&& s[i] > 0
    &&& forall|j: int| 0 <= j < s.len() && j != i ==> s[j] < s[i]
}

/// The entry that is positive and larger than every other, if there is one.
pub open spec fn unique_best(s: Seq<nat>) -> Option<int> {
    if exists|i: int| is_unique_best(s, i) {
        Some(choose|i: int| is_unique_best(s, i))
    } else {
        None
    }
}

/// The constraints of one kind that a WARP function records.
pub open spec fn recorded(f: FunctionView, adjacent: bool) -> Set<FunctionConstraintView> {
    if adjacent {
        f.constraints.adjacent.to_set()
    } else {
        f.constraints.call_sites.to_set()
    }
}

/// For each candidate, how many of the observed GUIDs it records among its constraints of
/// the kind.
pub open spec fn guid_counts(observed: Set<u128>, ms: Seq<FunctionView>, adjacent: bool) -> Seq<
    nat,
> {
    Seq::new(ms.len(), |i: int| observed.intersect(set_guids(recorded(ms[i], adjacent))).len())
}

/// For each candidate, how many of the observed symbol names it records among its constraints
/// of the kind.
pub open spec fn name_counts(observed: Set<Seq<char>>, ms: Seq<FunctionView>, adjacent: bool) -> Seq<
    nat,
> {
    Seq::new(ms.len(), |i: int| observed.intersect(set_names(recorded(ms[i], adjacent))).len())
}

/// Of the four kinds, in order, the last one whose count is largest.
pub open spec fn last_largest(h0: nat, h1: nat, h2: nat, h3: nat) -> int {
    let k01: int = if h1 >= h0 {
        1
    } else {
        0
    };
    let m01 = if h1 >= h0 {
        h1
    } else {
        h0
    };
    let k012: int = if h2 >= m01 {
        2
    } else {
        k01
    };
    let m012 = if h2 >= m01 {
        h2
    } else {
        m01
    };
    if h3 >= m012 {
        3
    } else {
        k012
    }
}

/// The settings of a matcher.
#[derive(Debug, Clone, Copy, PartialEq, Eq, PartialOrd, Ord, Hash)]
pub struct MatcherSettings {
    /// Any function under this length will be required to constrain.
    ///
    /// This is set to [MatcherSettings::TRIVIAL_FUNCTION_LEN_DEFAULT] by default.
    pub trivial_function_len: u64,
    /// Any function under this length will not match.
    ///
    /// This is set to [MatcherSettings::MINIMUM_FUNCTION_LEN_DEFAULT] by default.
    pub minimum_function_len: u64,
    /// Any function above this length will not match.
    ///
    /// This is `None`, no limit, by default.
    pub maximum_function_len: Option<u64>,
    /// For a successful constrained function match the number of matches must be at least this.
    ///
    /// This is set to [MatcherSettings::MINIMUM_MATCHED_CONSTRAINTS_DEFAULT] by default.
    pub minimum_matched_constraints: usize,
    /// Whether functions may match on adjacent functions that are trivial.
    ///
    /// This is set to [MatcherSettings::TRIVIAL_FUNCTION_ADJACENT_ALLOWED_DEFAULT] by default.
    pub trivial_function_adjacent_allowed: bool,
}

/// The values that a settings store holds for the matcher's settings; `None` where it holds none.
#[derive(Debug, Clone, Copy, PartialEq, Eq, Default)]
pub struct StoredMatcherSettings {
    pub trivial_function_len: Option<u64>,
    pub minimum_function_len: Option<u64>,
    pub maximum_function_len: Option<u64>,
    pub minimum_matched_constraints: Option<u64>,
    pub trivial_function_adjacent_allowed: Option<bool>,
}

impl MatcherSettings {
    pub const TRIVIAL_FUNCTION_LEN_DEFAULT: u64 = 20;
    pub const TRIVIAL_FUNCTION_LEN_SETTING: &'static str = "analysis.warp.trivialFunctionLength";
    pub const MINIMUM_FUNCTION_LEN_DEFAULT: u64 = 0;
    pub const MINIMUM_FUNCTION_LEN_SETTING: &'static str = "analysis.warp.minimumFunctionLength";
    pub const MAXIMUM_FUNCTION_LEN_DEFAULT: u64 = 0;
    pub const MAXIMUM_FUNCTION_LEN_SETTING: &'static str = "analysis.warp.maximumFunctionLength";
    pub const MINIMUM_MATCHED_CONSTRAINTS_DEFAULT: usize = 1;
    pub const MINIMUM_MATCHED_CONSTRAINTS_SETTING: &'static str =
        "analysis.warp.minimumMatchedConstraints";
    pub const TRIVIAL_FUNCTION_ADJACENT_ALLOWED_DEFAULT: bool = false;
    pub const TRIVIAL_FUNCTION_ADJACENT_ALLOWED_SETTING: &'static str =
        "analysis.warp.trivialFunctionAdjacentAllowed";

    /// The default settings.
    pub open spec fn spec_default() -> MatcherSettings {
        MatcherSettings {
            trivial_function_len: 20,
            minimum_function_len: 0,
            maximum_function_len: None,
            minimum_matched_constraints: 1,
            trivial_function_adjacent_allowed: false,
        }
    }

    /// The settings that a store holding `stored` gives: each held value replaces the default,
    /// a maximum length of 0 stands for no maximum, and the minimum number of matched
    /// constraints is the stored integer cast to `usize`.
    pub open spec fn spec_from_settings(stored: StoredMatcherSettings) -> MatcherSettings {
        let d = Self::spec_default();
        MatcherSettings {
            trivial_function_len: match stored.trivial_function_len {
                Some(v) => v,
                None => d.trivial_function_len,
            },
            minimum_function_len: match stored.minimum_function_len {
                Some(v) => v,
                None => d.minimum_function_len,
            },
            maximum_function_len: match stored.maximum_function_len {
                Some(v) => if v == 0 {
                    None
                } else {
                    Some(v)
                },
                None => d.maximum_function_len,
            },
            minimum_matched_constraints: match stored.minimum_matched_constraints {
                Some(v) => v as usize,
                None => d.minimum_matched_constraints,
            },
            trivial_function_adjacent_allowed: match stored.trivial_function_adjacent_allowed {
                Some(v) => v,
                None => d.trivial_function_adjacent_allowed,
            },
        }
    }

    /// Retrieve matcher settings from the values a settings store holds.
    pub fn from_settings(stored: &StoredMatcherSettings) -> (r: Self)
        ensures
            r == Self::spec_from_settings(*stored),
    {
        let mut settings = MatcherSettings::default();
        if let Some(v) = stored.trivial_function_len {
            settings.trivial_function_len = v;
        }
        if let Some(v) = stored.minimum_function_len {
            settings.minimum_function_len = v;
        }
        if let Some(v) = stored.maximum_function_len {
            if v == 0 {
                settings.maximum_function_len = None;
            } else {
                settings.maximum_function_len = Some(v);
            }
        }
        if let Some(v) = stored.minimum_matched_constraints {
            settings.minimum_matched_constraints = v as usize;
        }
        if let Some(v) = stored.trivial_function_adjacent_allowed {
            settings.trivial_function_adjacent_allowed = v;
        }
        settings
    }
}

impl Default for MatcherSettings {
    fn default() -> (r: Self)
        ensures
            r == Self::spec_default(),
    {
        MatcherSettings {
            trivial_function_len: MatcherSettings::TRIVIAL_FUNCTION_LEN_DEFAULT,
            minimum_function_len: MatcherSettings::MINIMUM_FUNCTION_LEN_DEFAULT,
            maximum_function_len: None,
            minimum_matched_constraints: MatcherSettings::MINIMUM_MATCHED_CONSTRAINTS_DEFAULT,
            trivial_function_adjacent_allowed:
                MatcherSettings::TRIVIAL_FUNCTION_ADJACENT_ALLOWED_DEFAULT,
        }
    }
}


/// Adding a constraint adds its GUID, if it has one.
proof fn lemma_set_guids_insert(cs: Set<FunctionConstraintView>, c: FunctionConstraintView)
    ensures
        set_guids(cs.insert(c)) == (match c.guid {
            Some(g) => set_guids(cs).insert(g.guid),
            None => set_guids(cs),
        }),
{
    let lhs = set_guids(cs.insert(c));
    let rhs = match c.guid {
        Some(g) => set_guids(cs).insert(g.guid),
        None => set_guids(cs),
    };
    assert forall|x: u128| lhs.contains(x) <==> rhs.contains(x) by {
        if lhs.contains(x) {
            let d = choose|d: FunctionConstraintView|
                cs.insert(c).contains(d) && d.guid == Some(FunctionGUID { guid: x });
            if d != c {
                assert(cs.contains(d));
            }
        }
        if rhs.contains(x) {
            if set_guids(cs).contains(x) {
                let d = choose|d: FunctionConstraintView|
                    cs.contains(d) && d.guid == Some(FunctionGUID { guid: x });
                assert(cs.insert(c).contains(d));
            } else {
                assert(cs.insert(c).contains(c));
            }
        }
    }
    assert(lhs =~= rhs);
}

/// Adding a constraint adds its symbol's name, if it has a symbol.
proof fn lemma_set_names_insert(cs: Set<FunctionConstraintView>, c: FunctionConstraintView)
    ensures
        set_names(cs.insert(c)) == (match c.symbol {
            Some(s) => set_names(cs).insert(s.name),
            None => set_names(cs),
        }),
{
    let lhs = set_names(cs.insert(c));
    let rhs = match c.symbol {
        Some(s) => set_names(cs).insert(s.name),
        None => set_names(cs),
    };
    assert forall|x: Seq<char>| lhs.contains(x) <==> rhs.contains(x) by {
        if lhs.contains(x) {
            let d = choose|d: FunctionConstraintView|
                cs.insert(c).contains(d) && d.symbol is Some && d.symbol->0.name == x;
            if d != c {
                assert(cs.contains(d));
            }
        }
        if rhs.contains(x) {
            if set_names(cs).contains(x) {
                let d = choose|d: FunctionConstraintView|
                    cs.contains(d) && d.symbol is Some && d.symbol->0.name == x;
                assert(cs.insert(c).contains(d));
            } else {
                assert(cs.insert(c).contains(c));
            }
        }
    }
    assert(lhs =~= rhs);
}

/// The GUIDs of the constraints that have one.
fn constraint_guids(cs: &Vec<FunctionConstraint>) -> (r: Vec<u128>)
    ensures
        item_views(r@).to_set() == set_guids(constraint_views(cs@).to_set()),
{
    let mut r: Vec<u128> = Vec::new();
    let mut i: usize = 0;
    proof {
        assert(constraint_views(cs@.take(0)).to_set() =~= Set::empty());
        assert(set_guids(Set::empty()) =~= Set::empty());
        assert(item_views(r@).to_set() =~= Set::empty());
    }
    while i < cs.len()
        invariant
            i <= cs@.len(),
            item_views(r@).to_set() == set_guids(constraint_views(cs@.take(i as int)).to_set()),
        decreases cs@.len() - i,
    {
        let ghost before = r@;
        proof {
            assert(constraint_views(cs@.take(i + 1)) =~= constraint_views(cs@.take(i as int)).push(
                cs@[i as int]@,
            ));
            constraint_views(cs@.take(i as int)).lemma_push_to_set_commute(cs@[i as int]@);
            lemma_set_guids_insert(constraint_views(cs@.take(i as int)).to_set(), cs@[i as int]@);
        }
        if let Some(g) = &cs[i].guid {
            r.push(g.guid);
            proof {
                assert(item_views(r@) =~= item_views(before).push(g.guid));
                item_views(before).lemma_push_to_set_commute(g.guid);
            }
        }
        i = i + 1;
    }
    proof {
        assert(cs@.take(cs@.len() as int) =~= cs@);
    }
    r
}

/// The symbol names of the constraints that have a symbol.
fn constraint_names(cs: &Vec<FunctionConstraint>) -> (r: Vec<String>)
    ensures
        item_views(r@).to_set() == set_names(constraint_views(cs@).to_set()),
{
    let mut r: Vec<String> = Vec::new();
    let mut i: usize = 0;
    proof {
        assert(constraint_views(cs@.take(0)).to_set() =~= Set::empty());
        assert(set_names(Set::empty()) =~= Set::empty());
        assert(item_views(r@).to_set() =~= Set::empty());
    }
    while i < cs.len()
        invariant
            i <= cs@.len(),
            item_views(r@).to_set() == set_names(constraint_views(cs@.take(i as int)).to_set()),
        decreases cs@.len() - i,
    {
        let ghost before = r@;
        proof {
            assert(constraint_views(cs@.take(i + 1)) =~= constraint_views(cs@.take(i as int)).push(
                cs@[i as int]@,
            ));
            constraint_views(cs@.take(i as int)).lemma_push_to_set_commute(cs@[i as int]@);
            lemma_set_names_insert(constraint_views(cs@.take(i as int)).to_set(), cs@[i as int]@);
        }
        if let Some(s) = &cs[i].symbol {
            let name = s.name.clone();
            r.push(name);
            proof {
                assert(item_views(r@) =~= item_views(before).push(s.name@));
                item_views(before).lemma_push_to_set_commute(s.name@);
            }
        }
        i = i + 1;
    }
    proof {
        assert(cs@.take(cs@.len() as int) =~= cs@);
    }
    r
}

/// Does one of the first `upto` values of `v` equal `x`?
fn contains_value<T: SameValue>(v: &Vec<T>, upto: usize, x: &T) -> (r: bool)
    requires
        upto <= v@.len(),
    ensures
        r == item_views(v@.take(upto as int)).contains(x@),
{
    let mut k: usize = 0;
    while k < upto
        invariant
            k <= upto <= v@.len(),
            forall|j: int| 0 <= j < k ==> v@[j]@ != x@,
        decreases upto - k,
    {
        if v[k].same_value(x) {
            proof {
                assert(item_views(v@.take(upto as int))[k as int] == x@);
            }
            return true;
        }
        k = k + 1;
    }
    proof {
        if item_views(v@.take(upto as int)).contains(x@) {
            let j = choose|j: int|
                0 <= j < upto && item_views(v@.take(upto as int))[j] == x@;
            assert(v@[j]@ == x@);
        }
    }
    false
}

/// How many values are both among the observed values and among the items.
fn count_common<T: SameValue>(observed: &Vec<T>, items: &Vec<T>) -> (r: usize)
    ensures
        r == item_views(observed@).to_set().intersect(item_views(items@).to_set()).len(),
{
    let ghost o = item_views(observed@).to_set();
    let mut count: usize = 0;
    let mut i: usize = 0;
    proof {
        assert(item_views(items@.take(0)).to_set() =~= Set::empty());
        assert(Set::<T::V>::empty().intersect(o) =~= Set::empty());
    }
    while i < items.len()
        invariant
            i <= items@.len(),
            o == item_views(observed@).to_set(),
            count == item_views(items@.take(i as int)).to_set().intersect(o).len(),
        decreases items@.len() - i,
    {
        let ghost a = item_views(items@.take(i as int)).to_set();
        let ghost x = items@[i as int]@;
        proof {
            assert(item_views(items@.take(i + 1)) =~= item_views(items@.take(i as int)).push(x));
            item_views(items@.take(i as int)).lemma_push_to_set_commute(x);
            item_views(items@.take(i as int)).lemma_cardinality_of_set();
            vstd::set_lib::lemma_len_intersect(a, o);
        }
        let seen = contains_value(items, i, &items[i]);
        let common = contains_value(observed, observed.len(), &items[i]);
        proof {
            assert(observed@.take(observed@.len() as int) =~= observed@);
        }
        if !seen && common {
            count = count + 1;
            proof {
                assert(a.insert(x).intersect(o) =~= a.intersect(o).insert(x));
            }
        } else {
            proof {
                if seen {
                    assert(a.insert(x) =~= a);
                } else {
                    assert(a.insert(x).intersect(o) =~= a.intersect(o));
                }
            }
        }
        i = i + 1;
    }
    proof {
        assert(items@.take(items@.len() as int) =~= items@);
        assert(o.intersect(item_views(items@).to_set()) =~= item_views(items@).to_set().intersect(o));
    }
    count
}

/// For each candidate, how many of the observed values are among its items.
pub open spec fn common_counts<T: View>(observed: Seq<T>, candidates: Seq<Vec<T>>) -> Seq<nat> {
    Seq::new(
        candidates.len(),
        |i: int| item_views(observed).to_set().intersect(item_views(candidates[i]@).to_set()).len(),
    )
}

proof fn lemma_seq_max_push(s: Seq<nat>, x: nat)
    ensures
        seq_max(s.push(x)) == if x > seq_max(s) {
            x
        } else {
            seq_max(s)
        },
{
    assert(s.push(x).drop_last() =~= s);
}

proof fn lemma_seq_max_bounds(s: Seq<nat>)
    ensures
        forall|i: int| 0 <= i < s.len() ==> s[i] <= seq_max(s),
        s.len() > 0 ==> exists|i: int| 0 <= i < s.len() && s[i] == seq_max(s),
        s.len() == 0 ==> seq_max(s) == 0,
    decreases s.len(),
{
    if s.len() > 0 {
        lemma_seq_max_bounds(s.drop_last());
        assert forall|i: int| 0 <= i < s.len() implies s[i] <= seq_max(s) by {
            if i < s.len() - 1 {
                assert(s[i] == s.drop_last()[i]);
            }
        }
        if s.last() <= seq_max(s.drop_last()) && s.len() > 1 {
            let j = choose|j: int|
                0 <= j < s.drop_last().len() && s.drop_last()[j] == seq_max(s.drop_last());
            assert(s[j] == seq_max(s));
        }
    }
}

/// Keeping track of the unique best entry while the counts grow by one.
proof fn lemma_best_step(p: Seq<nat>, c: nat, best: Option<int>)
    requires
        match best {
            Some(i) => is_unique_best(p, i),
            None => forall|i: int| !is_unique_best(p, i),
        },
    ensures
        ({
            let next = if c == seq_max(p) {
                None
            } else if c > seq_max(p) {
                Some(p.len() as int)
            } else {
                best
            };
            match next {
                Some(i) => is_unique_best(p.push(c), i),
                None => forall|i: int| !is_unique_best(p.push(c), i),
            }
        }),
{
    lemma_seq_max_bounds(p);
    let q = p.push(c);
    let h = seq_max(p);
    assert forall|j: int| 0 <= j < p.len() implies q[j] == p[j] by {}
    if c == h {
        assert forall|i: int| !is_unique_best(q, i) by {
            if is_unique_best(q, i) {
                if i == p.len() {
                    let j = choose|j: int| 0 <= j < p.len() && p[j] == h;
                    assert(q[j] < q[i]);
                } else {
                    assert(q[p.len() as int] < q[i]);
                }
            }
        }
    } else if c > h {
        assert(is_unique_best(q, p.len() as int));
    } else {
        match best {
            Some(i) => {
                assert(is_unique_best(q, i));
            },
            None => {
                assert forall|i: int| !is_unique_best(q, i) by {
                    if is_unique_best(q, i) {
                        if i == p.len() {
                            let j = choose|j: int| 0 <= j < p.len() && p[j] == h;
                            assert(q[j] < q[i]);
                        } else {
                            assert(is_unique_best(p, i));
                        }
                    }
                }
            },
        }
    }
}

/// The largest number of observed values that a candidate has among its items, and the candidate
/// that alone reaches it, if it is positive and reached by one candidate only.
fn highest_common_count<T: SameValue>(observed: &Vec<T>, candidates: &Vec<Vec<T>>) -> (r: (
    usize,
    Option<usize>,
))
    ensures
        r.0 == seq_max(common_counts(observed@, candidates@)),
        match r.1 {
            Some(i) => is_unique_best(common_counts(observed@, candidates@), i as int),
            None => forall|i: int| !is_unique_best(common_counts(observed@, candidates@), i),
        },
{
    let ghost counts = common_counts(observed@, candidates@);
    let mut highest: usize = 0;
    let mut matched: Option<usize> = None;
    let mut k: usize = 0;
    proof {
        assert(counts.take(0) =~= Seq::<nat>::empty());
    }
    while k < candidates.len()
        invariant
            k <= candidates@.len(),
            counts == common_counts(observed@, candidates@),
            highest == seq_max(counts.take(k as int)),
            match matched {
                Some(i) => is_unique_best(counts.take(k as int), i as int),
                None => forall|i: int| !is_unique_best(counts.take(k as int), i),
            },
        decreases candidates@.len() - k,
    {
        let common = count_common(observed, &candidates[k]);
        proof {
            assert(counts.take(k + 1) =~= counts.take(k as int).push(common as nat));
            lemma_seq_max_push(counts.take(k as int), common as nat);
            let ghost best = match matched {
                Some(i) => Some(i as int),
                None => None,
            };
            lemma_best_step(counts.take(k as int), common as nat, best);
        }
        if common == highest {
            matched = None;
        } else if common > highest {
            highest = common;
            matched = Some(k);
        }
        k = k + 1;
    }
    proof {
        assert(counts.take(candidates@.len() as int) =~= counts);
    }
    (highest, matched)
}

/// The GUIDs recorded by each candidate among its constraints of the kind.
fn candidate_guids(ms: &[Function], adjacent: bool) -> (r: Vec<Vec<u128>>)
    ensures
        r@.len() == ms@.len(),
        forall|i: int|
            0 <= i < ms@.len() ==> item_views(#[trigger] r@[i]@).to_set() == set_guids(
                recorded(ms@[i]@, adjacent),
            ),
{
    let mut r: Vec<Vec<u128>> = Vec::new();
    let mut i: usize = 0;
    while i < ms.len()
        invariant
            i <= ms@.len(),
            r@.len() == i,
            forall|j: int|
                0 <= j < i ==> item_views(#[trigger] r@[j]@).to_set() == set_guids(
                    recorded(ms@[j]@, adjacent),
                ),
        decreases ms@.len() - i,
    {
        let items = if adjacent {
            constraint_guids(&ms[i].constraints.adjacent)
        } else {
            constraint_guids(&ms[i].constraints.call_sites)
        };
        r.push(items);
        i = i + 1;
    }
    r
}

/// The symbol names recorded by each candidate among its constraints of the kind.
fn candidate_names(ms: &[Function], adjacent: bool) -> (r: Vec<Vec<String>>)
    ensures
        r@.len() == ms@.len(),
        forall|i: int|
            0 <= i < ms@.len() ==> item_views(#[trigger] r@[i]@).to_set() == set_names(
                recorded(ms@[i]@, adjacent),
            ),
{
    let mut r: Vec<Vec<String>> = Vec::new();
    let mut i: usize = 0;
    while i < ms.len()
        invariant
            i <= ms@.len(),
            r@.len() == i,
            forall|j: int|
                0 <= j < i ==> item_views(#[trigger] r@[j]@).to_set() == set_names(
                    recorded(ms@[j]@, adjacent),
                ),
        decreases ms@.len() - i,
    {
        let items = if adjacent {
            constraint_names(&ms[i].constraints.adjacent)
        } else {
            constraint_names(&ms[i].constraints.call_sites)
        };
        r.push(items);
        i = i + 1;
    }
    r
}


/// Whether the matcher's adjacency filter lets an adjacent function constrain: it is longer than
/// the trivial length, or trivial adjacent functions are allowed.
pub open spec fn spec_adjacent_allowed(settings: MatcherSettings, f: AnalysisFunction) -> bool {
    f.spec_len() > settings.trivial_function_len || settings.trivial_function_adjacent_allowed
}

/// Which candidate the constraints single out, once the plain checks have not decided: for each
/// of the four kinds (adjacent symbol names, adjacent GUIDs, call-site symbol names, call-site
/// GUIDs) the largest number of observed values a candidate shares and the candidate that alone
/// shares it; the last kind with the largest such number decides, if that number is at least the
/// minimum number of matched constraints.
pub open spec fn spec_constrained_match(
    settings: MatcherSettings,
    call_sites: Set<FunctionConstraintView>,
    adjacent: Set<FunctionConstraintView>,
    ms: Seq<FunctionView>,
) -> Option<int> {
    let c0 = name_counts(set_names(adjacent), ms, true);
    let c1 = guid_counts(set_guids(adjacent), ms, true);
    let c2 = name_counts(set_names(call_sites), ms, false);
    let c3 = guid_counts(set_guids(call_sites), ms, false);
    let k = last_largest(seq_max(c0), seq_max(c1), seq_max(c2), seq_max(c3));
    let counts = if k == 0 {
        c0
    } else if k == 1 {
        c1
    } else if k == 2 {
        c2
    } else {
        c3
    };
    if seq_max(counts) >= settings.minimum_matched_constraints {
        unique_best(counts)
    } else {
        None
    }
}

/// The length is allowed to match: it is not under the minimum, nor above the maximum where one
/// is set.
pub open spec fn spec_length_allowed(settings: MatcherSettings, function_len: u64) -> bool {
    &&& function_len >= settings.minimum_function_len
    &&& match settings.maximum_function_len {
        Some(m) => function_len <= m,
        None => true,
    }
}

/// Matching a function of the length among `count` candidates reads its constraints: the length
/// is allowed, there are candidates, and there are several or the function is trivial.
pub open spec fn spec_needs_constraints(settings: MatcherSettings, function_len: u64, count: nat) -> bool {
    &&& spec_length_allowed(settings, function_len)
    &&& count > 0
    &&& !(count == 1 && function_len >= settings.trivial_function_len)
}

/// The candidate matched to a function of the given length: none if the length is under the
/// minimum or above the maximum (if any) or there are no candidates; the only candidate if
/// there is one and the function is not trivial (shorter than the trivial length); else the one
/// that the constraints single out.
pub open spec fn spec_match_function(
    settings: MatcherSettings,
    function_len: u64,
    call_sites: Set<FunctionConstraintView>,
    adjacent: Set<FunctionConstraintView>,
    ms: Seq<FunctionView>,
) -> Option<int> {
    let is_trivial = function_len < settings.trivial_function_len;
    if !spec_length_allowed(settings, function_len) || ms.len() == 0 {
        None
    } else if ms.len() == 1 && !is_trivial {
        Some(0)
    } else {
        spec_constrained_match(settings, call_sites, adjacent, ms)
    }
}

/// A function whose length is under the minimum, or above the maximum where one is set, matches
/// no candidate, whatever its constraints.
pub proof fn lemma_length_out_of_bounds_never_matches(
    settings: MatcherSettings,
    function_len: u64,
    call_sites: Set<FunctionConstraintView>,
    adjacent: Set<FunctionConstraintView>,
    ms: Seq<FunctionView>,
)
    requires
        function_len < settings.minimum_function_len || (settings.maximum_function_len is Some
            && function_len > settings.maximum_function_len->0),
    ensures
        spec_match_function(settings, function_len, call_sites, adjacent, ms) is None,
{
}

/// The sole candidate of a function that is not trivial and whose length lies within the bounds
/// is its match, whatever its constraints.
pub proof fn lemma_sole_candidate_matches(
    settings: MatcherSettings,
    function_len: u64,
    call_sites: Set<FunctionConstraintView>,
    adjacent: Set<FunctionConstraintView>,
    ms: Seq<FunctionView>,
)
    requires
        ms.len() == 1,
        function_len >= settings.trivial_function_len,
        function_len >= settings.minimum_function_len,
        match settings.maximum_function_len {
            Some(m) => function_len <= m,
            None => true,
        },
    ensures
        spec_match_function(settings, function_len, call_sites, adjacent, ms) == Some(0int),
{
}

/// A match made through the constraints is a candidate that, for one kind of constraint, shares
/// at least the minimum number of matched constraints with the function, and more than any other
/// candidate shares.
pub proof fn lemma_constrained_match_is_best(
    settings: MatcherSettings,
    call_sites: Set<FunctionConstraintView>,
    adjacent: Set<FunctionConstraintView>,
    ms: Seq<FunctionView>,
    i: int,
)
    requires
        spec_constrained_match(settings, call_sites, adjacent, ms) == Some(i),
    ensures
        0 <= i < ms.len(),
        ({
            let c0 = name_counts(set_names(adjacent), ms, true);
            let c1 = guid_counts(set_guids(adjacent), ms, true);
            let c2 = name_counts(set_names(call_sites), ms, false);
            let c3 = guid_counts(set_guids(call_sites), ms, false);
            ||| is_unique_best(c0, i) && c0[i] >= settings.minimum_matched_constraints
            ||| is_unique_best(c1, i) && c1[i] >= settings.minimum_matched_constraints
            ||| is_unique_best(c2, i) && c2[i] >= settings.minimum_matched_constraints
            ||| is_unique_best(c3, i) && c3[i] >= settings.minimum_matched_constraints
        }),
{
    let c0 = name_counts(set_names(adjacent), ms, true);
    let c1 = guid_counts(set_guids(adjacent), ms, true);
    let c2 = name_counts(set_names(call_sites), ms, false);
    let c3 = guid_counts(set_guids(call_sites), ms, false);
    let k = last_largest(seq_max(c0), seq_max(c1), seq_max(c2), seq_max(c3));
    let counts = if k == 0 {
        c0
    } else if k == 1 {
        c1
    } else if k == 2 {
        c2
    } else {
        c3
    };
    assert(unique_best(counts) == Some(i));
    assert(is_unique_best(counts, i));
    lemma_seq_max_bounds(counts);
    let j = choose|j: int| 0 <= j < counts.len() && counts[j] == seq_max(counts);
    assert(counts[i] == seq_max(counts));
}

/// With no observed constraints, the constraints single out no candidate: a function with
/// several candidates, or a trivial one, is then left unmatched.
pub proof fn lemma_no_constraints_no_constrained_match(
    settings: MatcherSettings,
    ms: Seq<FunctionView>,
)
    ensures
        spec_constrained_match(settings, Set::empty(), Set::empty(), ms) is None,
{
    let none = Set::<FunctionConstraintView>::empty();
    assert(set_names(none) =~= Set::empty());
    assert(set_guids(none) =~= Set::empty());
    let c0 = name_counts(set_names(none), ms, true);
    let c1 = guid_counts(set_guids(none), ms, true);
    let c2 = name_counts(set_names(none), ms, false);
    let c3 = guid_counts(set_guids(none), ms, false);
    assert forall|i: int| 0 <= i < ms.len() implies c0[i] == 0 && c1[i] == 0 && c2[i] == 0
        && c3[i] == 0 by {
        assert(Set::<Seq<char>>::empty().intersect(set_names(recorded(ms[i], true)))
            =~= Set::empty());
        assert(Set::<u128>::empty().intersect(set_guids(recorded(ms[i], true))) =~= Set::empty());
        assert(Set::<Seq<char>>::empty().intersect(set_names(recorded(ms[i], false)))
            =~= Set::empty());
        assert(Set::<u128>::empty().intersect(set_guids(recorded(ms[i], false)))
            =~= Set::empty());
    }
    assert forall|i: int| !is_unique_best(c0, i) && !is_unique_best(c1, i) && !is_unique_best(c2, i)
        && !is_unique_best(c3, i) by {}
}

/// The counts of one kind of constraint, for each candidate: kind 0 is adjacent symbol names,
/// 1 adjacent GUIDs, 2 call-site symbol names and 3 call-site GUIDs.
pub open spec fn kind_counts(
    call_sites: Set<FunctionConstraintView>,
    adjacent: Set<FunctionConstraintView>,
    ms: Seq<FunctionView>,
    kind: int,
) -> Seq<nat> {
    if kind == 0 {
        name_counts(set_names(adjacent), ms, true)
    } else if kind == 1 {
        guid_counts(set_guids(adjacent), ms, true)
    } else if kind == 2 {
        name_counts(set_names(call_sites), ms, false)
    } else {
        guid_counts(set_guids(call_sites), ms, false)
    }
}

/// The kind of constraint with the largest count decides, ties going to the later kind: where a
/// function of allowed length is matched through its constraints, and candidate `i` shares more
/// values of kind `k` with the function than any other candidate does, at least as many as any
/// candidate shares of an earlier kind, more than any candidate shares of a later kind, and at
/// least the minimum number of matched constraints, then `i` is the match.
pub proof fn lemma_largest_kind_decides(
    settings: MatcherSettings,
    function_len: u64,
    call_sites: Set<FunctionConstraintView>,
    adjacent: Set<FunctionConstraintView>,
    ms: Seq<FunctionView>,
    k: int,
    i: int,
)
    requires
        function_len >= settings.minimum_function_len,
        match settings.maximum_function_len {
            Some(m) => function_len <= m,
            None => true,
        },
        ms.len() >= 2 || function_len < settings.trivial_function_len,
        0 <= k < 4,
        0 <= i < ms.len(),
        kind_counts(call_sites, adjacent, ms, k)[i] > 0,
        kind_counts(call_sites, adjacent, ms, k)[i] >= settings.minimum_matched_constraints,
        forall|m: int|
            0 <= m < ms.len() && m != i ==> #[trigger] kind_counts(call_sites, adjacent, ms, k)[m]
                < kind_counts(call_sites, adjacent, ms, k)[i],
        forall|j: int, m: int|
            0 <= j < k && 0 <= m < ms.len() ==> #[trigger] kind_counts(call_sites, adjacent, ms, j)[m]
                <= kind_counts(call_sites, adjacent, ms, k)[i],
        forall|j: int, m: int|
            k < j < 4 && 0 <= m < ms.len() ==> #[trigger] kind_counts(call_sites, adjacent, ms, j)[m]
                < kind_counts(call_sites, adjacent, ms, k)[i],
    ensures
        spec_match_function(settings, function_len, call_sites, adjacent, ms) == Some(i),
{
    let c0 = kind_counts(call_sites, adjacent, ms, 0);
    let c1 = kind_counts(call_sites, adjacent, ms, 1);
    let c2 = kind_counts(call_sites, adjacent, ms, 2);
    let c3 = kind_counts(call_sites, adjacent, ms, 3);
    let ck = kind_counts(call_sites, adjacent, ms, k);
    let top = ck[i];
    lemma_seq_max_bounds(c0);
    lemma_seq_max_bounds(c1);
    lemma_seq_max_bounds(c2);
    lemma_seq_max_bounds(c3);
    assert forall|j: int|
        #![trigger kind_counts(call_sites, adjacent, ms, j)]
        0 <= j < 4 implies {
        let cj = kind_counts(call_sites, adjacent, ms, j);
        &&& cj.len() == ms.len()
        &&& (j < k ==> seq_max(cj) <= top)
        &&& (j > k ==> seq_max(cj) < top)
        &&& (j == k ==> seq_max(cj) == top)
    } by {
        let cj = kind_counts(call_sites, adjacent, ms, j);
        lemma_seq_max_bounds(cj);
        let m = choose|m: int| 0 <= m < cj.len() && cj[m] == seq_max(cj);
        if j < k {
            assert(cj[m] <= top);
        } else if j > k {
            assert(cj[m] < top);
        } else {
            assert(cj[i] <= seq_max(cj));
            if m != i {
                assert(cj[m] < top);
            }
        }
    }
    assert(c0 == name_counts(set_names(adjacent), ms, true));
    assert(c1 == guid_counts(set_guids(adjacent), ms, true));
    assert(c2 == name_counts(set_names(call_sites), ms, false));
    assert(c3 == guid_counts(set_guids(call_sites), ms, false));
    let h = last_largest(seq_max(c0), seq_max(c1), seq_max(c2), seq_max(c3));
    assert(h == k);
    assert(is_unique_best(ck, i));
    let b = choose|b: int| is_unique_best(ck, b);
    if b != i {
        assert(ck[b] < ck[i]);
        assert(ck[i] < ck[b]);
    }
    assert(unique_best(ck) == Some(i));
}

/// A matcher represents a specific configuration for identifying functions using WARP. A matcher
/// does not store/own any WARP information directly, instead the matcher is given the candidate
/// functions that a container holds.
#[derive(Debug, Clone, Copy)]
pub struct Matcher {
    pub settings: MatcherSettings,
}

impl Matcher {
    pub fn new(settings: MatcherSettings) -> (r: Self)
        ensures
            r.settings == settings,
    {
        Matcher { settings }
    }

    /// The matcher's adjacency filter: an adjacent function may constrain if it is longer than the
    /// trivial length, or if trivial adjacent functions are allowed.
    pub fn adjacent_function_allowed(&self, adjacent_function: &AnalysisFunction) -> (r: bool)
        requires
            adjacent_function.well_formed(),
        ensures
            r == spec_adjacent_allowed(self.settings, *adjacent_function),
    {
        adjacent_function.len() > self.settings.trivial_function_len
            || self.settings.trivial_function_adjacent_allowed
    }

    /// Adds `ty` to the view's types, after the types it refers to: references by GUID that the
    /// view lacks are resolved in the source first, then references by name that the view lacks
    /// and that exactly one type GUID of the source has (a name is not resolved again while it is
    /// being resolved); a reference by both a GUID and a name is then defined under them.
    pub fn add_type_to_view<C: Container>(
        &self,
        container: &C,
        source: &SourceId,
        view: &mut ViewTypes,
        ty: &Type,
    )
        requires
            traversable(container, *source),
        ensures
            view_grows(*old(view), *final(view)),
            defines_itself(*ty, *old(view), *final(view)),
            is_leaf(*ty) ==> *final(view) == *old(view),
            ({
                let r = traverse_type(
                    container,
                    *source,
                    traversal_of(*old(view), Set::empty()),
                    ty@,
                );
                &&& final(view).ids@ == r.ids
                &&& item_views(final(view).names@) == r.names
                &&& definition_views(final(view).definitions@) == r.definitions
            }),
    {
        let mut visited: Vec<String> = Vec::new();
        proof {
            assert(visiting(visited@) =~= Set::<Seq<char>>::empty());
        }
        add_type_inner(container, source, view, &mut visited, ty);
    }

    /// Of the candidates `matched_functions`, all of which share the GUID of `function`, the one to
    /// match it to. The call-site and adjacency constraints of `function` are computed with
    /// `guid_cache`, from its `surroundings`; adjacent functions constrain only where
    /// [Matcher::adjacent_function_allowed] lets them.
    pub fn match_function_from_constraints<'a>(
        &self,
        guid_cache: &GUIDCache,
        function: &AnalysisFunction,
        surroundings: &FunctionSurroundings,
        matched_functions: &'a [Function],
    ) -> (r: Option<&'a Function>)
        requires
            function.well_formed(),
            spec_needs_constraints(self.settings, function.spec_len(), matched_functions@.len())
                ==> adjacent_well_formed(surroundings.adjacent@) && adjacent_offsets_fit(
                surroundings.adjacent@,
                function.start,
            ),
        ensures
            ({
                let settings = self.settings;
                let chosen = spec_match_function(
                    settings,
                    function.spec_len(),
                    spec_call_site_constraints(
                        guid_cache.guids(),
                        *function,
                        surroundings.call_sites@,
                    ),
                    spec_adjacency_constraints(
                        guid_cache.guids(),
                        *function,
                        surroundings.adjacent@,
                        |f: AnalysisFunction| spec_adjacent_allowed(settings, f),
                    ),
                    function_views(matched_functions@),
                );
                &&& r is Some <==> chosen is Some
                &&& chosen is Some ==> 0 <= chosen->0 < matched_functions@.len() && *r->0
                    == matched_functions@[chosen->0]
            }),
    {
        let settings = self.settings;
        let function_len = function.len();
        let is_function_trivial = function_len < settings.trivial_function_len;
        let is_function_allowed = function_len >= settings.minimum_function_len && match settings.maximum_function_len {
            Some(m) => function_len <= m,
            None => true,
        };

        // Function not allowed, or no matches, stop early.
        if !is_function_allowed || matched_functions.len() == 0 {
            return None;
        }
        // If we have a single possible match than that must be our function.
        // We must also not be a trivial function, as those will likely be artifacts of an
        // incomplete dataset.
        if matched_functions.len() == 1 && !is_function_trivial {
            return Some(&matched_functions[0]);
        }
        proof {
            assert(spec_needs_constraints(settings, function.spec_len(), matched_functions@.len()));
        }

        let ghost guids = guid_cache.guids();
        let ghost allowed = |f: AnalysisFunction| spec_adjacent_allowed(settings, f);
        let call_sites = guid_cache.call_site_constraints(function, &surroundings.call_sites);
        let filter = |f: &AnalysisFunction| -> (b: bool)
            requires
                f.well_formed(),
            ensures
                b == spec_adjacent_allowed(settings, *f),
            { f.len() > settings.trivial_function_len || settings.trivial_function_adjacent_allowed };
        let adjacent = guid_cache.adjacency_constraints(function, &surroundings.adjacent, filter);
        let ghost adjacent_set = spec_adjacency_constraints(
            guids,
            *function,
            surroundings.adjacent@,
            allowed,
        );
        proof {
            assert forall|c: FunctionConstraintView|
                constraint_views(adjacent@).to_set().contains(c) <==> adjacent_set.contains(c) by {
                if constraint_views(adjacent@).to_set().contains(c) {
                    let (i, j) = choose|i: int, j: int|
                        crate::cache::adjacent_gives(guids, *function, surroundings.adjacent@, i, j, c)
                            && filter.ensures((&surroundings.adjacent@[i].functions@[j],), true);
                    assert(adjacent_set.contains(c));
                }
                if adjacent_set.contains(c) {
                    let (i, j) = choose|i: int, j: int|
                        crate::cache::adjacent_gives(guids, *function, surroundings.adjacent@, i, j, c)
                            && allowed(surroundings.adjacent@[i].functions@[j]);
                    assert(surroundings.adjacent@[i].functions@[j].well_formed());
                    assert(!filter.ensures((&surroundings.adjacent@[i].functions@[j],), false));
                }
            }
            assert(constraint_views(adjacent@).to_set() =~= adjacent_set);
        }

        let call_site_guids = constraint_guids(&call_sites);
        let call_site_names = constraint_names(&call_sites);
        let adjacent_guids = constraint_guids(&adjacent);
        let adjacent_names = constraint_names(&adjacent);

        let ghost ms = function_views(matched_functions@);
        let adjacent_name_items = candidate_names(matched_functions, true);
        let adjacent_guid_items = candidate_guids(matched_functions, true);
        let call_site_name_items = candidate_names(matched_functions, false);
        let call_site_guid_items = candidate_guids(matched_functions, false);

        // Ordered from the lowest confidence to the highest confidence constraint.
        let (h0, b0) = highest_common_count(&adjacent_names, &adjacent_name_items);
        let (h1, b1) = highest_common_count(&adjacent_guids, &adjacent_guid_items);
        let (h2, b2) = highest_common_count(&call_site_names, &call_site_name_items);
        let (h3, b3) = highest_common_count(&call_site_guids, &call_site_guid_items);
        proof {
            let cs_set = constraint_views(call_sites@).to_set();
            assert(common_counts(adjacent_names@, adjacent_name_items@) =~= name_counts(
                set_names(adjacent_set),
                ms,
                true,
            ));
            assert(common_counts(adjacent_guids@, adjacent_guid_items@) =~= guid_counts(
                set_guids(adjacent_set),
                ms,
                true,
            ));
            assert(common_counts(call_site_names@, call_site_name_items@) =~= name_counts(
                set_names(cs_set),
                ms,
                false,
            ));
            assert(common_counts(call_site_guids@, call_site_guid_items@) =~= guid_counts(
                set_guids(cs_set),
                ms,
                false,
            ));
        }

        // If there is a tie, the last one wins, which should be the call-site GUIDs.
        let mut best_count = h0;
        let mut best = b0;
        if h1 >= best_count {
            best_count = h1;
            best = b1;
        }
        if h2 >= best_count {
            best_count = h2;
            best = b2;
        }
        if h3 >= best_count {
            best_count = h3;
            best = b3;
        }
        proof {
            let c0 = name_counts(set_names(adjacent_set), ms, true);
            let c1 = guid_counts(set_guids(adjacent_set), ms, true);
            let cs_set = constraint_views(call_sites@).to_set();
            let c2 = name_counts(set_names(cs_set), ms, false);
            let c3 = guid_counts(set_guids(cs_set), ms, false);
            let k = last_largest(seq_max(c0), seq_max(c1), seq_max(c2), seq_max(c3));
            let counts = if k == 0 {
                c0
            } else if k == 1 {
                c1
            } else if k == 2 {
                c2
            } else {
                c3
            };
            assert(best_count == seq_max(counts));
            match best {
                Some(i) => {
                    assert(is_unique_best(counts, i as int));
                    assert(unique_best(counts) == Some(i as int));
                },
                None => {
                    assert(unique_best(counts) is None);
                },
            }
        }
        if best_count >= settings.minimum_matched_constraints {
            match best {
                Some(i) => Some(&matched_functions[i]),
                None => None,
            }
        } else {
            None
        }
    }
}


/// The functions that the sources `ss` hold with the GUID, source after source.
pub open spec fn concat_candidates<C: Container>(container: &C, guid: FunctionGUID, ss: Seq<SourceId>) -> Seq<
    FunctionView,
>
    decreases ss.len(),
{
    if ss.len() == 0 {
        Seq::empty()
    } else {
        concat_candidates(container, guid, ss.drop_last()) + container.spec_functions_with_guid(
            ss.last(),
            guid,
        )
    }
}

/// The sum of the numbers.
pub open spec fn nat_sum(s: Seq<nat>) -> nat
    decreases s.len(),
{
    if s.len() == 0 {
        0
    } else {
        nat_sum(s.drop_last()) + s.last()
    }
}

/// A function is among the candidates of the sources exactly when one of the sources holds it
/// with the GUID, and the candidates number what the sources hold with the GUID together.
proof fn lemma_concat_candidates_members<C: Container>(
    container: &C,
    guid: FunctionGUID,
    ss: Seq<SourceId>,
)
    ensures
        forall|f: FunctionView|
            concat_candidates(container, guid, ss).contains(f) <==> exists|k: int|
                0 <= k < ss.len() && container.spec_functions_with_guid(ss[k], guid).contains(f),
        concat_candidates(container, guid, ss).len() == nat_sum(
            ss.map_values(|s: SourceId| container.spec_functions_with_guid(s, guid).len()),
        ),
    decreases ss.len(),
{
    if ss.len() > 0 {
        let rest = ss.drop_last();
        lemma_concat_candidates_members(container, guid, rest);
        let a = concat_candidates(container, guid, rest);
        let b = container.spec_functions_with_guid(ss.last(), guid);
        assert forall|f: FunctionView|
            concat_candidates(container, guid, ss).contains(f) <==> exists|k: int|
                0 <= k < ss.len() && container.spec_functions_with_guid(ss[k], guid).contains(f) by {
            if (a + b).contains(f) {
                let x = choose|x: int| 0 <= x < (a + b).len() && (a + b)[x] == f;
                if x < a.len() {
                    assert(a[x] == f);
                    assert(a.contains(f));
                    let k = choose|k: int|
                        0 <= k < rest.len() && container.spec_functions_with_guid(rest[k], guid).contains(f);
                    assert(rest[k] == ss[k]);
                } else {
                    assert(b[x - a.len()] == f);
                    assert(ss[ss.len() - 1] == ss.last());
                }
            }
            if exists|k: int|
                0 <= k < ss.len() && container.spec_functions_with_guid(ss[k], guid).contains(f) {
                let k = choose|k: int|
                    0 <= k < ss.len() && container.spec_functions_with_guid(ss[k], guid).contains(f);
                if k < ss.len() - 1 {
                    assert(rest[k] == ss[k]);
                    assert(container.spec_functions_with_guid(rest[k], guid).contains(f));
                    assert(a.contains(f));
                    let x = choose|x: int| 0 <= x < a.len() && a[x] == f;
                    assert((a + b)[x] == f);
                } else {
                    assert(ss[k] == ss.last());
                    let x = choose|x: int| 0 <= x < b.len() && b[x] == f;
                    assert((a + b)[a.len() + x] == f);
                }
            }
        }
        let counts = ss.map_values(|s: SourceId| container.spec_functions_with_guid(s, guid).len());
        assert(counts.drop_last() =~= rest.map_values(
            |s: SourceId| container.spec_functions_with_guid(s, guid).len(),
        ));
    }
}

/// The candidates are the functions with the GUID of every source of the container: a function
/// is a candidate exactly when some source holds it with the GUID, and the candidates number the
/// functions with the GUID of all the sources together, whatever the order of the sources.
pub proof fn lemma_candidates_from_every_source<C: Container>(
    container: &C,
    guid: FunctionGUID,
    ss: Seq<SourceId>,
)
    requires
        candidate_order(container, guid, ss),
    ensures
        forall|f: FunctionView|
            concat_candidates(container, guid, ss).contains(f) <==> exists|s: SourceId|
                container.spec_sources().contains(s) && container.spec_functions_with_guid(
                    s,
                    guid,
                ).contains(f),
        concat_candidates(container, guid, ss).len() == nat_sum(
            ss.map_values(|s: SourceId| container.spec_functions_with_guid(s, guid).len()),
        ),
        forall|s: SourceId|
            container.spec_sources().contains(s) && container.spec_functions_with_guid(s, guid).len()
                > 0 ==> #[trigger] ss.contains(s),
{
    lemma_concat_candidates_members(container, guid, ss);
    assert forall|s: SourceId|
        container.spec_sources().contains(s) && container.spec_functions_with_guid(s, guid).len()
            > 0 implies #[trigger] ss.contains(s) by {
        assert(container.spec_sources().filter(
            |t: SourceId| container.spec_functions_with_guid(t, guid).len() > 0,
        ).contains(s));
        assert(ss.to_set().contains(s));
    }
    assert forall|f: FunctionView|
        concat_candidates(container, guid, ss).contains(f) <==> exists|s: SourceId|
            container.spec_sources().contains(s) && container.spec_functions_with_guid(s, guid).contains(
                f,
            ) by {
        if concat_candidates(container, guid, ss).contains(f) {
            let k = choose|k: int|
                0 <= k < ss.len() && container.spec_functions_with_guid(ss[k], guid).contains(f);
            assert(ss.to_set().contains(ss[k]));
            assert(container.spec_sources().filter(
                |t: SourceId| container.spec_functions_with_guid(t, guid).len() > 0,
            ).contains(ss[k]));
        }
        if exists|s: SourceId|
            container.spec_sources().contains(s) && container.spec_functions_with_guid(s, guid).contains(
                f,
            ) {
            let s = choose|s: SourceId|
                container.spec_sources().contains(s) && container.spec_functions_with_guid(
                    s,
                    guid,
                ).contains(f);
            assert(container.spec_functions_with_guid(s, guid).len() > 0);
            assert(ss.contains(s));
            let k = choose|k: int| 0 <= k < ss.len() && ss[k] == s;
            assert(container.spec_functions_with_guid(ss[k], guid).contains(f));
        }
    }
}

/// `ss` lists, each once, the sources of the container that hold functions with the GUID.
pub open spec fn candidate_order<C: Container>(container: &C, guid: FunctionGUID, ss: Seq<SourceId>) -> bool {
    &&& ss.no_duplicates()
    &&& ss.to_set() == container.spec_sources().filter(
        |s: SourceId| container.spec_functions_with_guid(s, guid).len() > 0,
    )
}

/// The functions with the GUID in all the sources of the container that hold one, source after
/// source, in the order the container lists those sources.
pub fn candidate_functions<C: Container>(container: &C, guid: &FunctionGUID) -> (r: Vec<Function>)
    ensures
        exists|ss: Seq<SourceId>|
            candidate_order(container, *guid, ss) && function_views(r@) == concat_candidates(
                container,
                *guid,
                ss,
            ),
{
    let sources = container.sources_with_function_guid(guid);
    let mut r: Vec<Function> = Vec::new();
    let mut k: usize = 0;
    proof {
        assert(function_views(r@) =~= concat_candidates(container, *guid, sources@.take(0)));
    }
    while k < sources.len()
        invariant
            k <= sources@.len(),
            forall|i: int| 0 <= i < sources@.len() ==> container.accepts_source(#[trigger] sources@[i]),
            function_views(r@) == concat_candidates(container, *guid, sources@.take(k as int)),
        decreases sources@.len() - k,
    {
        let ghost before = r@;
        let mut found = container.functions_with_guid(&sources[k], guid);
        let ghost added = found@;
        r.append(&mut found);
        proof {
            assert(sources@.take(k + 1).drop_last() =~= sources@.take(k as int));
            assert(function_views(r@) =~= function_views(before) + function_views(added));
        }
        k = k + 1;
    }
    proof {
        assert(sources@.take(sources@.len() as int) =~= sources@);
    }
    r
}

/// A function of the view, with what the matcher reads of it.
#[derive(Debug, PartialEq, Eq)]
pub struct ViewFunction {
    pub function: AnalysisFunction,
    pub surroundings: FunctionSurroundings,
}

/// The function can be matched: it covers a valid range, as do the functions next to it, whose
/// offsets fit an `i64`.
pub open spec fn matchable(f: ViewFunction) -> bool {
    &&& f.function.well_formed()
    &&& adjacent_well_formed(f.surroundings.adjacent@)
    &&& adjacent_offsets_fit(f.surroundings.adjacent@, f.function.start)
}

/// The matcher matches the function to one of the candidates.
pub open spec fn matches_among(
    settings: MatcherSettings,
    guids: Map<u64, FunctionGUID>,
    f: ViewFunction,
    candidates: Seq<FunctionView>,
) -> bool {
    spec_match_function(
        settings,
        f.function.spec_len(),
        spec_call_site_constraints(guids, f.function, f.surroundings.call_sites@),
        spec_adjacency_constraints(
            guids,
            f.function,
            f.surroundings.adjacent@,
            |a: AnalysisFunction| spec_adjacent_allowed(settings, a),
        ),
        candidates,
    ) is Some
}

/// The ids of the functions that are chosen, in order.
pub open spec fn selected_ids(fs: Seq<ViewFunction>, chosen: Seq<bool>) -> Seq<FunctionID>
    decreases fs.len(),
{
    if fs.len() == 0 || chosen.len() == 0 {
        Seq::empty()
    } else {
        let rest = selected_ids(fs.drop_last(), chosen.drop_last());
        if chosen.last() {
            rest.push(fs.last().function.id)
        } else {
            rest
        }
    }
}

/// Function `i` is chosen exactly when it has a cached GUID and the matcher matches it among the
/// container's functions with that GUID, taken source after source in some order of the sources.
pub open spec fn chosen_right<C: Container>(
    settings: MatcherSettings,
    guids: Map<u64, FunctionGUID>,
    container: &C,
    f: ViewFunction,
    chosen: bool,
) -> bool {
    match crate::cache::cached_guid(guids, f.function.id) {
        None => !chosen,
        Some(g) => exists|ss: Seq<SourceId>|
            candidate_order(container, g, ss) && chosen == matches_among(
                settings,
                guids,
                f,
                concat_candidates(container, g, ss),
            ),
    }
}

impl Matcher {
    /// The ids, in order, of the functions of the view that match one of the container's
    /// functions: each function with a cached GUID is matched among the functions of the container
    /// with that GUID. These are the functions whose analysis is to be updated.
    pub fn functions_to_update<C: Container>(
        &self,
        guid_cache: &GUIDCache,
        container: &C,
        functions: &[ViewFunction],
    ) -> (r: Vec<FunctionID>)
        requires
            forall|i: int| 0 <= i < functions@.len() ==> matchable(#[trigger] functions@[i]),
        ensures
            exists|chosen: Seq<bool>|
                chosen.len() == functions@.len() && r@ == selected_ids(functions@, chosen) && forall|
                    i: int,
                |
                    0 <= i < functions@.len() ==> chosen_right(
                        self.settings,
                        guid_cache.guids(),
                        container,
                        #[trigger] functions@[i],
                        chosen[i],
                    ),
    {
        let ghost guids = guid_cache.guids();
        let ghost mut chosen: Seq<bool> = Seq::empty();
        let mut r: Vec<FunctionID> = Vec::new();
        let mut i: usize = 0;
        while i < functions.len()
            invariant
                i <= functions@.len(),
                guids == guid_cache.guids(),
                forall|k: int| 0 <= k < functions@.len() ==> matchable(#[trigger] functions@[k]),
                chosen.len() == i,
                r@ == selected_ids(functions@.take(i as int), chosen),
                forall|k: int|
                    0 <= k < i ==> chosen_right(
                        self.settings,
                        guids,
                        container,
                        #[trigger] functions@[k],
                        chosen[k],
                    ),
            decreases functions@.len() - i,
        {
            let vf = &functions[i];
            let mut matched = false;
            match guid_cache.try_function_guid(vf.function.id) {
                Some(guid) => {
                    let candidates = candidate_functions(container, &guid);
                    proof {
                        assert(matchable(functions@[i as int]));
                    }
                    let found = self.match_function_from_constraints(
                        guid_cache,
                        &vf.function,
                        &vf.surroundings,
                        candidates.as_slice(),
                    );
                    matched = found.is_some();
                    proof {
                        let ss = choose|ss: Seq<SourceId>|
                            candidate_order(container, guid, ss) && function_views(candidates@)
                                == concat_candidates(container, guid, ss);
                        assert(candidate_order(container, guid, ss) && matched == matches_among(
                            self.settings,
                            guids,
                            *vf,
                            concat_candidates(container, guid, ss),
                        ));
                    }
                },
                None => {},
            }
            if matched {
                r.push(vf.function.id);
            }
            proof {
                let old_chosen = chosen;
                chosen = chosen.push(matched);
                assert(functions@.take(i + 1).drop_last() =~= functions@.take(i as int));
                assert(chosen.drop_last() =~= old_chosen);
                assert(chosen_right(self.settings, guids, container, functions@[i as int], matched));
            }
            i = i + 1;
        }
        proof {
            assert(functions@.take(functions@.len() as int) =~= functions@);
        }
        r
    }
}

} // verus!
