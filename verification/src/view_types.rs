//! Adding a WARP type, and the types it refers to, to the types of a view.
use crate::container::disk::DiskContainer;
use crate::container::memory::{source_or_empty, view_type_guids_with_name, MemoryContainer};
use crate::container::{Container, SourceId};
use crate::matcher::item_views;
use crate::signature::{types_view, Type, TypeClass, TypeClassView, TypeGUID, TypeView};
use vstd::prelude::*;

verus! {

/// A type that was defined in the view: its name, its GUID (its id in the view) and the type.
#[derive(Debug, PartialEq, Eq)]
pub struct TypeDefinition {
    pub name: String,
    pub guid: TypeGUID,
    pub ty: Type,
}

/// The types of a view: the ids (WARP type GUIDs) and the names it holds types under, and the
/// definitions made through [`ViewTypes::define`], in order.
#[derive(Debug, PartialEq, Eq)]
pub struct ViewTypes {
    pub ids: Vec<TypeGUID>,
    pub names: Vec<String>,
    pub definitions: Vec<TypeDefinition>,
}

impl ViewTypes {
    /// The view holds a type with the id.
    pub open spec fn spec_has_id(&self, guid: TypeGUID) -> bool {
        self.ids@.contains(guid)
    }

    /// The view holds a type with the name.
    pub open spec fn spec_has_name(&self, name: Seq<char>) -> bool {
        item_views(self.names@).contains(name)
    }

    /// The view's types, with nothing defined through it yet.
    pub fn new(ids: Vec<TypeGUID>, names: Vec<String>) -> (r: Self)
        ensures
            r.ids@ == ids@,
            r.names@ == names@,
            r.definitions@.len() == 0,
    {
        ViewTypes { ids, names, definitions: Vec::new() }
    }

    /// Does the view hold a type with the id?
    pub fn has_id(&self, guid: &TypeGUID) -> (r: bool)
        ensures
            r == self.spec_has_id(*guid),
    {
        let mut i: usize = 0;
        while i < self.ids.len()
            invariant
                i <= self.ids@.len(),
                forall|j: int| 0 <= j < i ==> self.ids@[j] != *guid,
            decreases self.ids@.len() - i,
        {
            if self.ids[i].guid == guid.guid {
                proof {
                    assert(self.ids@[i as int] == *guid);
                }
                return true;
            }
            i = i + 1;
        }
        false
    }

    /// Does the view hold a type with the name?
    pub fn has_name(&self, name: &String) -> (r: bool)
        ensures
            r == self.spec_has_name(name@),
    {
        let mut i: usize = 0;
        while i < self.names.len()
            invariant
                i <= self.names@.len(),
                forall|j: int| 0 <= j < i ==> self.names@[j]@ != name@,
            decreases self.names@.len() - i,
        {
            if self.names[i] == *name {
                proof {
                    assert(item_views(self.names@)[i as int] == name@);
                }
                return true;
            }
            i = i + 1;
        }
        proof {
            if item_views(self.names@).contains(name@) {
                let j = choose|j: int| 0 <= j < self.names@.len() && item_views(self.names@)[j] == name@;
                assert(self.names@[j]@ == name@);
            }
        }
        false
    }

    /// Defines `ty` in the view under the name and the id; afterwards the view holds a type with
    /// each.
    pub fn define(&mut self, name: String, guid: TypeGUID, ty: Type)
        ensures
            final(self).ids@ == old(self).ids@.push(guid),
            item_views(final(self).names@) == item_views(old(self).names@).push(name@),
            final(self).definitions@.len() == old(self).definitions@.len() + 1,
            forall|i: int|
                0 <= i < old(self).definitions@.len() ==> final(self).definitions@[i] == old(
                    self,
                ).definitions@[i],
            final(self).definitions@.last().name@ == name@,
            final(self).definitions@.last().guid == guid,
            final(self).definitions@.last().ty@ == ty@,
            definition_views(final(self).definitions@) == definition_views(
                old(self).definitions@,
            ).push((name@, guid, ty@)),
    {
        let ghost before = self.names@;
        let ghost name_view = name@;
        let ghost definition = (name@, guid, ty@);
        let ghost defs_before = self.definitions@;
        self.ids.push(guid);
        self.names.push(name.clone());
        proof {
            assert(item_views(self.names@) =~= item_views(before).push(name_view));
        }
        self.definitions.push(TypeDefinition { name, guid, ty });
        proof {
            assert(definition_views(self.definitions@) =~= definition_views(defs_before).push(
                definition,
            ));
        }
    }
}

/// The number of nodes in the type's tree.
pub open spec fn type_size(t: TypeView) -> nat
    decreases t,
{
    1 + match t.class {
        TypeClassView::Pointer(c) => type_size(*c),
        TypeClassView::Array(c, _) => type_size(*c),
        TypeClassView::Enumeration(c) => type_size(*c),
        TypeClassView::Structure(ms) => types_size(ms),
        TypeClassView::Union(ms) => types_size(ms),
        TypeClassView::Function(outs, ins) => types_size(outs) + types_size(ins),
        _ => 0,
    }
}

/// The number of nodes in the types' trees.
pub open spec fn types_size(ts: Seq<TypeView>) -> nat
    decreases ts,
{
    if ts.len() == 0 {
        0
    } else {
        types_size(ts.drop_last()) + type_size(ts.last())
    }
}

/// One more than the largest rank of a GUID that the type's tree refers to; 0 if it refers to
/// none.
pub open spec fn guid_bound(t: TypeView, rank: spec_fn(u128) -> nat) -> nat
    decreases t,
{
    match t.class {
        TypeClassView::Pointer(c) => guid_bound(*c, rank),
        TypeClassView::Array(c, _) => guid_bound(*c, rank),
        TypeClassView::Enumeration(c) => guid_bound(*c, rank),
        TypeClassView::Structure(ms) => guids_bound(ms, rank),
        TypeClassView::Union(ms) => guids_bound(ms, rank),
        TypeClassView::Function(outs, ins) => {
            let a = guids_bound(outs, rank);
            let b = guids_bound(ins, rank);
            if a > b {
                a
            } else {
                b
            }
        },
        TypeClassView::Referrer(Some(g), _) => rank(g.guid) + 1,
        _ => 0,
    }
}

/// The largest [`guid_bound`] of the types.
pub open spec fn guids_bound(ts: Seq<TypeView>, rank: spec_fn(u128) -> nat) -> nat
    decreases ts,
{
    if ts.len() == 0 {
        0
    } else {
        let a = guids_bound(ts.drop_last(), rank);
        let b = guid_bound(ts.last(), rank);
        if a > b {
            a
        } else {
            b
        }
    }
}

/// Each type of the source refers, by GUID, only to GUIDs of lower rank than its own.
pub open spec fn guid_ranked<C: Container>(
    container: &C,
    source: SourceId,
    rank: spec_fn(u128) -> nat,
) -> bool {
    forall|g: u128|
        #[trigger] container.spec_type_with_guid(source, TypeGUID { guid: g }) is Some ==> guid_bound(
            container.spec_type_with_guid(source, TypeGUID { guid: g })->0,
            rank,
        ) <= rank(g)
}

/// The references by GUID among the types of the source form no cycle: the GUIDs can be ranked
/// so that each type refers only to lower ranks.
pub open spec fn guid_references_acyclic<C: Container>(container: &C, source: SourceId) -> bool {
    exists|rank: spec_fn(u128) -> nat| guid_ranked(container, source, rank)
}

/// A ranking of the source's GUIDs that shows its references by GUID acyclic.
pub open spec fn some_rank<C: Container>(container: &C, source: SourceId) -> spec_fn(u128) -> nat {
    choose|rank: spec_fn(u128) -> nat| guid_ranked(container, source, rank)
}

/// The names that a reference by name can resolve in the source: those that exactly one type GUID
/// has.
pub open spec fn resolvable_names<C: Container>(container: &C, source: SourceId) -> Set<Seq<char>> {
    Set::new(|n: Seq<char>| container.spec_type_guids_with_name(source, n).len() == 1)
}

/// The names being visited.
pub open spec fn visiting(visited: Seq<String>) -> Set<Seq<char>> {
    item_views(visited).to_set()
}

/// Where the traversal stands: the resolvable names not being visited.
pub open spec fn unvisited<C: Container>(container: &C, source: SourceId, visited: Seq<String>) -> nat {
    resolvable_names(container, source).difference(visiting(visited)).len()
}

/// The definitions, as (name, GUID, type) values.
pub open spec fn definition_views(ds: Seq<TypeDefinition>) -> Seq<(Seq<char>, TypeGUID, TypeView)> {
    ds.map_values(|d: TypeDefinition| (d.name@, d.guid, d.ty@))
}

/// Where the traversal stands with the view, and `visiting` as the names being resolved.
pub open spec fn traversal_of(view: ViewTypes, visiting: Set<Seq<char>>) -> Traversal {
    Traversal {
        ids: view.ids@,
        names: item_views(view.names@),
        definitions: definition_views(view.definitions@),
        visiting,
    }
}

/// The resolvable names of the source that are not among `visiting`.
pub open spec fn unvisited_names<C: Container>(
    container: &C,
    source: SourceId,
    visiting: Set<Seq<char>>,
) -> nat {
    resolvable_names(container, source).difference(visiting).len()
}

/// Where adding types to a view stands: the ids and the names the view holds types under, the
/// definitions made through it (name, GUID, type), and the names being resolved.
#[verifier::ext_equal]
pub struct Traversal {
    pub ids: Seq<TypeGUID>,
    pub names: Seq<Seq<char>>,
    pub definitions: Seq<(Seq<char>, TypeGUID, TypeView)>,
    pub visiting: Set<Seq<char>>,
}

/// The traversal with `visiting` as the names being resolved.
pub open spec fn with_visiting(st: Traversal, visiting: Set<Seq<char>>) -> Traversal {
    Traversal { ids: st.ids, names: st.names, definitions: st.definitions, visiting }
}

/// Visiting more names leaves fewer unvisited.
pub proof fn lemma_unvisited_subset<C: Container>(
    container: &C,
    source: SourceId,
    a: Set<Seq<char>>,
    b: Set<Seq<char>>,
)
    requires
        resolvable_names(container, source).finite(),
        a.subset_of(b),
    ensures
        unvisited_names(container, source, b) <= unvisited_names(container, source, a),
{
    let r = resolvable_names(container, source);
    vstd::set_lib::lemma_len_subset(r.difference(b), r.difference(a));
}

/// Visiting a resolvable name not yet visited leaves one fewer unvisited.
pub proof fn lemma_unvisited_enter<C: Container>(
    container: &C,
    source: SourceId,
    a: Set<Seq<char>>,
    n: Seq<char>,
)
    requires
        resolvable_names(container, source).finite(),
        resolvable_names(container, source).contains(n),
        !a.contains(n),
    ensures
        unvisited_names(container, source, a.insert(n)) < unvisited_names(container, source, a),
{
    let r = resolvable_names(container, source);
    assert(r.difference(a.insert(n)) =~= r.difference(a).remove(n));
}

/// The traversal after adding `ty`: first the types its tree refers to, then `ty` itself if it
/// refers to a type by both a GUID and a name. A reference by GUID that the view lacks is resolved
/// in the source; otherwise a reference by a name that is not being resolved and that the view
/// lacks is resolved to the one type GUID of the source with that name, if there is exactly one,
/// while the name is marked as being resolved.
pub open spec fn traverse_type<C: Container>(
    container: &C,
    source: SourceId,
    st: Traversal,
    ty: TypeView,
) -> Traversal
    decreases
        unvisited_names(container, source, st.visiting),
        guid_bound(ty, some_rank(container, source)),
        type_size(ty),
        0nat,
    when traversable(container, source)
{
    match ty.class {
        TypeClassView::Pointer(t) => traverse_type(container, source, st, *t),
        TypeClassView::Array(t, _) => traverse_type(container, source, st, *t),
        TypeClassView::Enumeration(t) => traverse_type(container, source, st, *t),
        TypeClassView::Structure(ms) => traverse_types(container, source, st, ms),
        TypeClassView::Union(ms) => traverse_types(container, source, st, ms),
        TypeClassView::Function(outs, ins) => {
            let st1 = traverse_types(container, source, st, outs);
            if st.visiting.subset_of(st1.visiting) {
                proof {
                    lemma_unvisited_subset(container, source, st.visiting, st1.visiting);
                }
                traverse_types(container, source, st1, ins)
            } else {
                st1
            }
        },
        TypeClassView::Referrer(guid, name) => {
            let rank = some_rank(container, source);
            let resolved = guid is Some && !st.ids.contains(guid->0) && container.spec_type_with_guid(
                source,
                guid->0,
            ) is Some;
            let st1 = if resolved && guid_bound(
                container.spec_type_with_guid(source, guid->0)->0,
                rank,
            ) <= rank(guid->0.guid) {
                traverse_type(
                    container,
                    source,
                    st,
                    container.spec_type_with_guid(source, guid->0)->0,
                )
            } else {
                st
            };
            let st2 = if name is Some && !resolved {
                let n = name->0;
                let entered = with_visiting(st, st.visiting.insert(n));
                if !st.visiting.contains(n) && !st.names.contains(n) {
                    let gs = container.spec_type_guids_with_name(source, n);
                    let st3 = if gs.len() == 1 && container.spec_type_with_guid(source, gs[0]) is Some {
                        proof {
                            lemma_unvisited_enter(container, source, st.visiting, n);
                        }
                        traverse_type(
                            container,
                            source,
                            entered,
                            container.spec_type_with_guid(source, gs[0])->0,
                        )
                    } else {
                        entered
                    };
                    with_visiting(st3, st3.visiting.remove(n))
                } else {
                    entered
                }
            } else {
                st1
            };
            match (guid, name) {
                (Some(g), Some(n)) => Traversal {
                    ids: st2.ids.push(g),
                    names: st2.names.push(n),
                    definitions: st2.definitions.push((n, g, ty)),
                    visiting: st2.visiting,
                },
                _ => st2,
            }
        },
        _ => st,
    }
}

/// The traversal after adding the types in order.
pub open spec fn traverse_types<C: Container>(
    container: &C,
    source: SourceId,
    st: Traversal,
    tys: Seq<TypeView>,
) -> Traversal
    decreases
        unvisited_names(container, source, st.visiting),
        guids_bound(tys, some_rank(container, source)),
        types_size(tys),
        1nat,
    when traversable(container, source)
{
    if tys.len() == 0 {
        st
    } else {
        let st1 = traverse_types(container, source, st, tys.drop_last());
        if st.visiting.subset_of(st1.visiting) {
            proof {
                lemma_unvisited_subset(container, source, st.visiting, st1.visiting);
                lemma_element_measures(tys, some_rank(container, source));
                assert(tys.last() == tys[tys.len() - 1]);
            }
            traverse_type(container, source, st1, tys.last())
        } else {
            st1
        }
    }
}

/// The traversal `after` extends `before`: it still resolves every name `before` resolves, and
/// keeps the definitions of `before` as its first ones.
pub open spec fn extends(before: Traversal, after: Traversal) -> bool {
    &&& before.visiting.subset_of(after.visiting)
    &&& before.definitions.len() <= after.definitions.len()
    &&& forall|d: int|
        0 <= d < before.definitions.len() ==> #[trigger] after.definitions[d]
            == before.definitions[d]
}

/// Adding a type only extends the traversal: no definition is dropped or changed, and no name
/// stops being resolved.
pub proof fn lemma_traverse_type_extends<C: Container>(
    container: &C,
    source: SourceId,
    st: Traversal,
    ty: TypeView,
)
    requires
        traversable(container, source),
    ensures
        extends(st, traverse_type(container, source, st, ty)),
    decreases
        unvisited_names(container, source, st.visiting),
        guid_bound(ty, some_rank(container, source)),
        type_size(ty),
        0nat,
{
    match ty.class {
        TypeClassView::Pointer(t) => lemma_traverse_type_extends(container, source, st, *t),
        TypeClassView::Array(t, _) => lemma_traverse_type_extends(container, source, st, *t),
        TypeClassView::Enumeration(t) => lemma_traverse_type_extends(container, source, st, *t),
        TypeClassView::Structure(ms) => lemma_traverse_types_extends(container, source, st, ms),
        TypeClassView::Union(ms) => lemma_traverse_types_extends(container, source, st, ms),
        TypeClassView::Function(outs, ins) => {
            lemma_traverse_types_extends(container, source, st, outs);
            let st1 = traverse_types(container, source, st, outs);
            lemma_unvisited_subset(container, source, st.visiting, st1.visiting);
            lemma_traverse_types_extends(container, source, st1, ins);
        },
        TypeClassView::Referrer(guid, name) => {
            let rank = some_rank(container, source);
            let resolved = guid is Some && !st.ids.contains(guid->0) && container.spec_type_with_guid(
                source,
                guid->0,
            ) is Some;
            if resolved && guid_bound(container.spec_type_with_guid(source, guid->0)->0, rank)
                <= rank(guid->0.guid) {
                lemma_traverse_type_extends(
                    container,
                    source,
                    st,
                    container.spec_type_with_guid(source, guid->0)->0,
                );
            }
            if name is Some && !resolved {
                let n = name->0;
                let entered = with_visiting(st, st.visiting.insert(n));
                if !st.visiting.contains(n) && !st.names.contains(n) {
                    let gs = container.spec_type_guids_with_name(source, n);
                    if gs.len() == 1 && container.spec_type_with_guid(source, gs[0]) is Some {
                        lemma_unvisited_enter(container, source, st.visiting, n);
                        lemma_traverse_type_extends(
                            container,
                            source,
                            entered,
                            container.spec_type_with_guid(source, gs[0])->0,
                        );
                    }
                }
            }
        },
        _ => {},
    }
}

/// Adding types only extends the traversal.
pub proof fn lemma_traverse_types_extends<C: Container>(
    container: &C,
    source: SourceId,
    st: Traversal,
    tys: Seq<TypeView>,
)
    requires
        traversable(container, source),
    ensures
        extends(st, traverse_types(container, source, st, tys)),
    decreases
        unvisited_names(container, source, st.visiting),
        guids_bound(tys, some_rank(container, source)),
        types_size(tys),
        1nat,
{
    if tys.len() > 0 {
        assert(type_size(tys.last()) >= 1);
        assert(types_size(tys.drop_last()) < types_size(tys));
        assert(guids_bound(tys.drop_last(), some_rank(container, source)) <= guids_bound(
            tys,
            some_rank(container, source),
        ));
        lemma_traverse_types_extends(container, source, st, tys.drop_last());
        let st1 = traverse_types(container, source, st, tys.drop_last());
        lemma_unvisited_subset(container, source, st.visiting, st1.visiting);
        lemma_element_measures(tys, some_rank(container, source));
        assert(tys.last() == tys[tys.len() - 1]);
        lemma_traverse_type_extends(container, source, st1, tys.last());
    }
}

/// `sub` is `t` or a type in its tree: a pointee, an array's or an enumeration's member type, a
/// member of a structure or a union, or an out or in member of a function type. References are
/// not followed.
pub open spec fn in_tree(t: TypeView, sub: TypeView) -> bool
    decreases t,
{
    t == sub || match t.class {
        TypeClassView::Pointer(c) => in_tree(*c, sub),
        TypeClassView::Array(c, _) => in_tree(*c, sub),
        TypeClassView::Enumeration(c) => in_tree(*c, sub),
        TypeClassView::Structure(ms) => in_trees(ms, sub),
        TypeClassView::Union(ms) => in_trees(ms, sub),
        TypeClassView::Function(outs, ins) => in_trees(outs, sub) || in_trees(ins, sub),
        _ => false,
    }
}

/// `sub` is in the tree of one of the types.
pub open spec fn in_trees(ts: Seq<TypeView>, sub: TypeView) -> bool
    decreases ts,
{
    ts.len() > 0 && (in_trees(ts.drop_last(), sub) || in_tree(ts.last(), sub))
}

/// Adding a type defines every reference by both a GUID and a name in its tree (the type itself,
/// pointees, member types, and the return and parameter types of function types) under that GUID
/// and name.
pub proof fn lemma_tree_referrers_defined<C: Container>(
    container: &C,
    source: SourceId,
    st: Traversal,
    ty: TypeView,
    sub: TypeView,
)
    requires
        traversable(container, source),
        in_tree(ty, sub),
        sub.class matches TypeClassView::Referrer(Some(_), Some(_)),
    ensures
        traverse_type(container, source, st, ty).definitions.contains(
            (sub.class->Referrer_1->0, sub.class->Referrer_0->0, sub),
        ),
    decreases type_size(ty), 0nat,
{
    let d = (sub.class->Referrer_1->0, sub.class->Referrer_0->0, sub);
    if ty == sub {
        let r = traverse_type(container, source, st, ty);
        assert(r.definitions.last() == d);
        assert(r.definitions[r.definitions.len() - 1] == d);
    } else {
        match ty.class {
            TypeClassView::Pointer(c) => lemma_tree_referrers_defined(container, source, st, *c, sub),
            TypeClassView::Array(c, _) => lemma_tree_referrers_defined(container, source, st, *c, sub),
            TypeClassView::Enumeration(c) => lemma_tree_referrers_defined(container, source, st, *c, sub),
            TypeClassView::Structure(ms) => lemma_trees_referrers_defined(container, source, st, ms, sub),
            TypeClassView::Union(ms) => lemma_trees_referrers_defined(container, source, st, ms, sub),
            TypeClassView::Function(outs, ins) => {
                let st1 = traverse_types(container, source, st, outs);
                lemma_traverse_types_extends(container, source, st, outs);
                lemma_traverse_types_extends(container, source, st1, ins);
                let r = traverse_types(container, source, st1, ins);
                if in_trees(outs, sub) {
                    lemma_trees_referrers_defined(container, source, st, outs, sub);
                    let k = choose|k: int| 0 <= k < st1.definitions.len() && st1.definitions[k] == d;
                    assert(r.definitions[k] == d);
                } else {
                    lemma_trees_referrers_defined(container, source, st1, ins, sub);
                }
            },
            _ => {},
        }
    }
}

/// Adding types defines every reference by both a GUID and a name in their trees.
pub proof fn lemma_trees_referrers_defined<C: Container>(
    container: &C,
    source: SourceId,
    st: Traversal,
    tys: Seq<TypeView>,
    sub: TypeView,
)
    requires
        traversable(container, source),
        in_trees(tys, sub),
        sub.class matches TypeClassView::Referrer(Some(_), Some(_)),
    ensures
        traverse_types(container, source, st, tys).definitions.contains(
            (sub.class->Referrer_1->0, sub.class->Referrer_0->0, sub),
        ),
    decreases types_size(tys), 1nat,
{
    let d = (sub.class->Referrer_1->0, sub.class->Referrer_0->0, sub);
    assert(type_size(tys.last()) >= 1);
    assert(types_size(tys.drop_last()) < types_size(tys));
    let st1 = traverse_types(container, source, st, tys.drop_last());
    lemma_traverse_types_extends(container, source, st, tys.drop_last());
    lemma_traverse_type_extends(container, source, st1, tys.last());
    let r = traverse_type(container, source, st1, tys.last());
    assert(traverse_types(container, source, st, tys) == r);
    if in_trees(tys.drop_last(), sub) {
        lemma_trees_referrers_defined(container, source, st, tys.drop_last(), sub);
        let k = choose|k: int| 0 <= k < st1.definitions.len() && st1.definitions[k] == d;
        assert(r.definitions[k] == d);
    } else {
        lemma_tree_referrers_defined(container, source, st1, tys.last(), sub);
    }
}

proof fn lemma_types_view(ts: Seq<Type>)
    ensures
        types_view(ts).len() == ts.len(),
        forall|i: int| 0 <= i < ts.len() ==> #[trigger] types_view(ts)[i] == ts[i]@,
    decreases ts.len(),
{
    if ts.len() > 0 {
        lemma_types_view(ts.drop_last());
        assert forall|i: int| 0 <= i < ts.len() implies #[trigger] types_view(ts)[i] == ts[i]@ by {
            if i < ts.len() - 1 {
                assert(ts.drop_last()[i] == ts[i]);
            }
        }
    }
}

/// Each type's measures are at most those of the whole sequence.
pub proof fn lemma_element_measures(ts: Seq<TypeView>, rank: spec_fn(u128) -> nat)
    ensures
        forall|i: int|
            0 <= i < ts.len() ==> guid_bound(#[trigger] ts[i], rank) <= guids_bound(ts, rank)
                && type_size(ts[i]) <= types_size(ts),
    decreases ts.len(),
{
    if ts.len() > 0 {
        lemma_element_measures(ts.drop_last(), rank);
        assert forall|i: int| 0 <= i < ts.len() implies guid_bound(#[trigger] ts[i], rank)
            <= guids_bound(ts, rank) && type_size(ts[i]) <= types_size(ts) by {
            if i < ts.len() - 1 {
                assert(ts.drop_last()[i] == ts[i]);
            }
        }
    }
}

proof fn lemma_unvisited_monotone<C: Container>(
    container: &C,
    source: SourceId,
    a: Seq<String>,
    b: Seq<String>,
)
    requires
        resolvable_names(container, source).finite(),
        visiting(a).subset_of(visiting(b)),
    ensures
        unvisited(container, source, b) <= unvisited(container, source, a),
{
    let r = resolvable_names(container, source);
    vstd::set_lib::lemma_len_subset(r.difference(visiting(b)), r.difference(visiting(a)));
}

/// Marks the name as being visited; false if it already was.
fn visit_name(visited: &mut Vec<String>, name: &String) -> (r: bool)
    ensures
        r == !visiting(old(visited)@).contains(name@),
        visiting(final(visited)@) == visiting(old(visited)@).insert(name@),
{
    let mut i: usize = 0;
    while i < visited.len()
        invariant
            i <= visited@.len(),
            forall|j: int| 0 <= j < i ==> visited@[j]@ != name@,
        decreases visited@.len() - i,
    {
        if visited[i] == *name {
            proof {
                assert(item_views(visited@)[i as int] == name@);
                assert(visiting(visited@).insert(name@) =~= visiting(visited@));
            }
            return false;
        }
        i = i + 1;
    }
    let ghost before = visited@;
    proof {
        if item_views(before).contains(name@) {
            let j = choose|j: int| 0 <= j < before.len() && item_views(before)[j] == name@;
            assert(before[j]@ == name@);
        }
    }
    visited.push(name.clone());
    proof {
        assert(item_views(visited@) =~= item_views(before).push(name@));
        item_views(before).lemma_push_to_set_commute(name@);
    }
    true
}

/// Ends the visit of the name.
fn leave_name(visited: &mut Vec<String>, name: &String)
    ensures
        visiting(final(visited)@) == visiting(old(visited)@).remove(name@),
{
    let ghost before = visited@;
    let mut kept: Vec<String> = Vec::new();
    let mut i: usize = 0;
    while i < visited.len()
        invariant
            i <= visited@.len(),
            visited@ == before,
            visiting(kept@) == visiting(before.take(i as int)).remove(name@),
        decreases visited@.len() - i,
    {
        proof {
            assert(item_views(before.take(i + 1)) =~= item_views(before.take(i as int)).push(before[i as int]@));
            item_views(before.take(i as int)).lemma_push_to_set_commute(before[i as int]@);
        }
        if visited[i] != *name {
            let ghost k0 = kept@;
            kept.push(visited[i].clone());
            proof {
                assert(item_views(kept@) =~= item_views(k0).push(before[i as int]@));
                item_views(k0).lemma_push_to_set_commute(before[i as int]@);
                assert(visiting(kept@) =~= visiting(before.take(i + 1)).remove(name@));
            }
        } else {
            proof {
                assert(visiting(kept@) =~= visiting(before.take(i + 1)).remove(name@));
            }
        }
        i = i + 1;
    }
    proof {
        assert(before.take(before.len() as int) =~= before);
    }
    *visited = kept;
}


/// What the traversal keeps: the view only gains ids, names and definitions, and no name stops
/// being visited.
pub open spec fn view_grows(before: ViewTypes, after: ViewTypes) -> bool {
    &&& before.ids@.to_set().subset_of(after.ids@.to_set())
    &&& item_views(before.names@).to_set().subset_of(item_views(after.names@).to_set())
    &&& before.definitions@.len() <= after.definitions@.len()
    &&& forall|i: int| 0 <= i < before.definitions@.len() ==> after.definitions@[i] == before.definitions@[i]
    &&& forall|i: int|
        before.definitions@.len() <= i < after.definitions@.len() ==> defines_referrer(
            after,
            #[trigger] after.definitions@[i],
        )
}

/// The definition is of a reference to a type by both a GUID and a name, under that GUID and
/// name, and the view holds a type with each.
pub open spec fn defines_referrer(view: ViewTypes, d: TypeDefinition) -> bool {
    &&& d.ty@.class == TypeClassView::Referrer(Some(d.guid), Some(d.name@))
    &&& view.spec_has_id(d.guid)
    &&& view.spec_has_name(d.name@)
}

/// The type refers to no other type: it is void, a boolean, an integer, a character or a float.
pub open spec fn is_leaf(ty: Type) -> bool {
    ty.class matches TypeClass::Void || ty.class matches TypeClass::Boolean(_) || ty.class matches TypeClass::Integer(_)
        || ty.class matches TypeClass::Character(_) || ty.class matches TypeClass::Float(_)
}

/// A reference to a type by both a GUID and a name is itself defined last, under that GUID and
/// name.
pub open spec fn defines_itself(ty: Type, before: ViewTypes, after: ViewTypes) -> bool {
    ty.class matches TypeClass::Referrer(Some(g), Some(n)) ==> {
        &&& after.definitions@.len() > before.definitions@.len()
        &&& after.definitions@.last().guid == g
        &&& after.definitions@.last().name@ == n@
        &&& after.definitions@.last().ty@ == ty@
    }
}

/// The traversal can run on the source: the container answers for it, its references by GUID
/// form no cycle, and only finitely many names resolve in it.
pub open spec fn traversable<C: Container>(container: &C, source: SourceId) -> bool {
    &&& container.accepts_source(source)
    &&& guid_references_acyclic(container, source)
    &&& resolvable_names(container, source).finite()
}

proof fn lemma_view_grows_trans(a: ViewTypes, b: ViewTypes, c: ViewTypes)
    requires
        view_grows(a, b),
        view_grows(b, c),
    ensures
        view_grows(a, c),
{
    assert forall|i: int|
        a.definitions@.len() <= i < c.definitions@.len() implies defines_referrer(
        c,
        #[trigger] c.definitions@[i],
    ) by {
        if i < b.definitions@.len() {
            assert(defines_referrer(b, b.definitions@[i]));
            assert(b.ids@.to_set().contains(b.definitions@[i].guid));
            assert(item_views(b.names@).to_set().contains(b.definitions@[i].name@));
        }
    }
}

proof fn lemma_view_grows_refl(a: ViewTypes)
    ensures
        view_grows(a, a),
{
}

fn add_types_inner<C: Container>(
    container: &C,
    source: &SourceId,
    view: &mut ViewTypes,
    visited: &mut Vec<String>,
    tys: &Vec<Type>,
)
    requires
        traversable(container, *source),
    ensures
        view_grows(*old(view), *final(view)),
        visiting(old(visited)@).subset_of(visiting(final(visited)@)),
        traversal_of(*final(view), visiting(final(visited)@)) == traverse_types(
            container,
            *source,
            traversal_of(*old(view), visiting(old(visited)@)),
            types_view(tys@),
        ),
    decreases
        unvisited(container, *source, old(visited)@),
        guids_bound(types_view(tys@), some_rank(container, *source)),
        types_size(types_view(tys@)),
        1nat,
{
    let ghost rank = some_rank(container, *source);
    let ghost entry_visited = visited@;
    let ghost entry_view = *view;
    let ghost st0 = traversal_of(*view, visiting(visited@));
    let ghost tvs = types_view(tys@);
    proof {
        lemma_types_view(tys@);
        lemma_element_measures(types_view(tys@), rank);
        lemma_view_grows_refl(*view);
        assert(tvs.take(0) =~= Seq::<TypeView>::empty());
    }
    let mut i: usize = 0;
    while i < tys.len()
        invariant
            i <= tys@.len(),
            traversable(container, *source),
            rank == some_rank(container, *source),
            tvs == types_view(tys@),
            types_view(tys@).len() == tys@.len(),
            forall|k: int| 0 <= k < tys@.len() ==> #[trigger] types_view(tys@)[k] == tys@[k]@,
            forall|k: int|
                0 <= k < tys@.len() ==> guid_bound(#[trigger] types_view(tys@)[k], rank) <= guids_bound(
                    types_view(tys@),
                    rank,
                ) && type_size(types_view(tys@)[k]) <= types_size(types_view(tys@)),
            view_grows(entry_view, *view),
            entry_visited == old(visited)@,
            visiting(entry_visited).subset_of(visiting(visited@)),
            st0 == traversal_of(entry_view, visiting(entry_visited)),
            traversal_of(*view, visiting(visited@)) == traverse_types(
                container,
                *source,
                st0,
                tvs.take(i as int),
            ),
        decreases tys@.len() - i,
    {
        proof {
            lemma_unvisited_monotone(container, *source, entry_visited, visited@);
            assert(types_view(tys@)[i as int] == tys@[i as int]@);
            assert(unvisited(container, *source, visited@) <= unvisited(container, *source, entry_visited));
            assert(guid_bound(tys@[i as int]@, rank) <= guids_bound(types_view(tys@), rank));
            assert(type_size(tys@[i as int]@) <= types_size(types_view(tys@)));
        }
        let ghost v0 = *view;
        let ghost cur = traversal_of(*view, visiting(visited@));
        add_type_inner(container, source, view, visited, &tys[i]);
        proof {
            lemma_view_grows_trans(entry_view, v0, *view);
            let next = tvs.take(i + 1);
            assert(next.drop_last() =~= tvs.take(i as int));
            assert(next.last() == tys@[i as int]@);
            assert(st0.visiting.subset_of(cur.visiting));
            assert(traversal_of(*view, visiting(visited@)) == traverse_types(
                container,
                *source,
                st0,
                next,
            ));
        }
        i = i + 1;
    }
    proof {
        assert(tvs.take(tys@.len() as int) =~= tvs);
    }
}

pub(crate) fn add_type_inner<C: Container>(
    container: &C,
    source: &SourceId,
    view: &mut ViewTypes,
    visited: &mut Vec<String>,
    ty: &Type,
)
    requires
        traversable(container, *source),
    ensures
        view_grows(*old(view), *final(view)),
        visiting(old(visited)@).subset_of(visiting(final(visited)@)),
        defines_itself(*ty, *old(view), *final(view)),
        is_leaf(*ty) ==> *final(view) == *old(view),
        traversal_of(*final(view), visiting(final(visited)@)) == traverse_type(
            container,
            *source,
            traversal_of(*old(view), visiting(old(visited)@)),
            ty@,
        ),
    decreases
        unvisited(container, *source, old(visited)@),
        guid_bound(ty@, some_rank(container, *source)),
        type_size(ty@),
        0nat,
{
    let ghost rank = some_rank(container, *source);
    let ghost entry_visited = visited@;
    let ghost entry_view = *view;
    let ghost st = traversal_of(*view, visiting(visited@));
    proof {
        lemma_view_grows_refl(*view);
    }
    // Verify all nested types are added before adding type.
    match &ty.class {
        TypeClass::Pointer(c) => add_type_inner(container, source, view, visited, c),
        TypeClass::Array(c, _) => add_type_inner(container, source, view, visited, c),
        TypeClass::Structure(members) => add_types_inner(container, source, view, visited, members),
        TypeClass::Enumeration(c) => add_type_inner(container, source, view, visited, c),
        TypeClass::Union(members) => add_types_inner(container, source, view, visited, members),
        TypeClass::Function(out_members, in_members) => {
            add_types_inner(container, source, view, visited, out_members);
            let ghost v0 = *view;
            proof {
                lemma_unvisited_monotone(container, *source, entry_visited, visited@);
            }
            add_types_inner(container, source, view, visited, in_members);
            proof {
                lemma_view_grows_trans(entry_view, v0, *view);
            }
        },
        TypeClass::Referrer(guid, name) => {
            // Check to see if the referrer has been added to the view.
            let mut resolved = false;
            if let Some(ref_guid) = guid {
                // References by GUID cannot form a cycle, so no visit is tracked for them.
                if !view.has_id(ref_guid) {
                    // Add the referrer to the view if the source has it.
                    if let Some(ref_ty) = container.type_with_guid(source, ref_guid) {
                        proof {
                            let g = ref_guid.guid;
                            assert(container.spec_type_with_guid(*source, TypeGUID { guid: g }) is Some);
                            assert(guid_ranked(container, *source, rank));
                            assert(guid_bound(ref_ty@, rank) <= rank(g));
                        }
                        add_type_inner(container, source, view, visited, &ref_ty);
                        resolved = true;
                    }
                }
            }
            let ghost st1 = traversal_of(*view, visiting(visited@));
            proof {
                assert(!resolved ==> st1 == st);
            }
            if let Some(ref_name) = name {
                // Only try and resolve by name if not already visiting.
                if !resolved {
                    let ghost v1 = visited@;
                    let newly = visit_name(visited, ref_name);
                    if newly && !view.has_name(ref_name) {
                        let type_guids = container.type_guids_with_name(source, ref_name.as_str());
                        if type_guids.len() == 1 {
                            if let Some(ref_ty) = container.type_with_guid(source, &type_guids[0]) {
                                proof {
                                    assert(resolvable_names(container, *source).contains(ref_name@));
                                    let r = resolvable_names(container, *source);
                                    assert(r.difference(visiting(visited@)) =~= r.difference(
                                        visiting(entry_visited),
                                    ).remove(ref_name@));
                                }
                                let ghost v2 = *view;
                                add_type_inner(container, source, view, visited, &ref_ty);
                                proof {
                                    lemma_view_grows_trans(entry_view, v2, *view);
                                }
                            }
                        }
                        // No longer visiting type.
                        let ghost v3 = visited@;
                        leave_name(visited, ref_name);
                        proof {
                            assert(visiting(entry_visited).subset_of(visiting(visited@))) by {
                                assert forall|n: Seq<char>| visiting(entry_visited).contains(n) implies visiting(visited@).contains(n) by {
                                    assert(n != ref_name@);
                                }
                            }
                        }
                    }
                }
            }
            match (guid, name) {
                (Some(g), Some(n)) => {
                    let ghost v4 = *view;
                    view.define(n.clone(), *g, ty.clone());
                    proof {
                        assert(item_views(v4.names@).to_set().subset_of(item_views(view.names@).to_set())) by {
                            item_views(v4.names@).lemma_push_to_set_commute(n@);
                        }
                        assert(v4.ids@.to_set().subset_of(view.ids@.to_set())) by {
                            v4.ids@.lemma_push_to_set_commute(*g);
                        }
                        let d = view.definitions@.last();
                        assert(view.ids@.last() == *g);
                        assert(item_views(view.names@).last() == n@);
                        assert(defines_referrer(*view, d));
                        assert(view.definitions@[view.definitions@.len() - 1] == d);
                        lemma_view_grows_trans(entry_view, v4, *view);
                    }
                },
                _ => {},
            }
        },
        _ => {},
    }
}

/// The names of the entries.
pub open spec fn entry_names(named: Seq<(Seq<char>, Seq<TypeGUID>)>) -> Seq<Seq<char>> {
    named.map_values(|e: (Seq<char>, Seq<TypeGUID>)| e.0)
}

/// A name that the lookup finds something for is the name of an entry.
proof fn lemma_lookup_found(named: Seq<(Seq<char>, Seq<TypeGUID>)>, name: Seq<char>)
    requires
        view_type_guids_with_name(named, name).len() > 0,
    ensures
        entry_names(named).contains(name),
    decreases named.len(),
{
    if named[0].0 == name {
        assert(entry_names(named)[0] == name);
    } else {
        lemma_lookup_found(named.drop_first(), name);
        let k = choose|k: int|
            0 <= k < named.drop_first().len() && #[trigger] entry_names(named.drop_first())[k] == name;
        assert(entry_names(named)[k + 1] == name);
    }
}

/// Only finitely many names resolve in a source of a memory container: those of its named types.
pub proof fn lemma_memory_container_names_finite(container: &MemoryContainer, source: SourceId)
    ensures
        resolvable_names(container, source).finite(),
{
    let named = source_or_empty(container@, source.0).named_types;
    let names = entry_names(named).to_set();
    assert forall|n: Seq<char>| resolvable_names(container, source).contains(n) implies names.contains(n) by {
        lemma_lookup_found(named, n);
    }
    vstd::set_lib::lemma_len_subset(resolvable_names(container, source), names);
}

/// Only finitely many names resolve in a source of a disk container: those of its named types.
pub proof fn lemma_disk_container_names_finite(container: &DiskContainer, source: SourceId)
    ensures
        resolvable_names(container, source).finite(),
{
    if container@.dom().contains(source.0) {
        let named = container@[source.0].named_types;
        let names = entry_names(named).to_set();
        assert forall|n: Seq<char>| resolvable_names(container, source).contains(n) implies names.contains(n) by {
            lemma_lookup_found(named, n);
        }
        vstd::set_lib::lemma_len_subset(resolvable_names(container, source), names);
    } else {
        assert(resolvable_names(container, source) =~= Set::empty());
    }
}

} // verus!
