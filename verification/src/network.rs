//! The network adapters.

use vstd::prelude::*;

use crate::order;
use crate::text;

verus! {

/// An interface that is no adapter: the loopback, or one that software made.
pub open spec fn is_virtual(name: Seq<char>) -> bool {
    ||| name == "lo"@
    ||| text::begins_with(name, "dummy"@)
    ||| text::begins_with(name, "veth"@)
    ||| text::begins_with(name, "br-"@)
    ||| text::begins_with(name, "docker"@)
}

/// The names of the adapters among these interfaces.
pub open spec fn adapters(names: Seq<Seq<char>>) -> Seq<Seq<char>> {
    names.filter(|name: Seq<char>| !is_virtual(name))
}

/// Whether the interface is no adapter.
pub fn is_virtual_interface(name: &str) -> (res: bool)
    ensures
        res == is_virtual(name@),
{
    text::same(name, "lo") || text::starts_with(name, "dummy") || text::starts_with(name, "veth")
        || text::starts_with(name, "br-") || text::starts_with(name, "docker")
}

/// The names of the adapters among the interfaces with these names, sorted.
pub fn get_network_adapters(names: &Vec<String>) -> (res: Vec<String>)
    ensures
        order::sorted(text::texts(res@)),
        text::texts(res@).to_multiset() == adapters(text::texts(names@)).to_multiset(),
{
    let ghost all = text::texts(names@);
    let ghost p = |name: Seq<char>| !is_virtual(name);
    let mut res: Vec<String> = Vec::new();
    let mut i: usize = 0;
    proof {
        reveal(Seq::filter);
        assert(text::texts(res@) =~= all.take(0).filter(p));
    }
    while i < names.len()
        invariant
            i <= names@.len(),
            all == text::texts(names@),
            p == (|name: Seq<char>| !is_virtual(name)),
            order::sorted(text::texts(res@)),
            text::texts(res@).to_multiset() == all.take(i as int).filter(p).to_multiset(),
        decreases names@.len() - i,
    {
        let ghost kept = all.take(i as int).filter(p);
        proof {
            reveal(Seq::filter);
            assert(all.take(i as int + 1).drop_last() =~= all.take(i as int));
            assert(all[i as int] == names@[i as int]@);
        }
        if !is_virtual_interface(names[i].as_str()) {
            order::insert_sorted(&mut res, names[i].clone());
            proof {
                kept.to_multiset_ensures();
                assert(all.take(i as int + 1).filter(p) =~= kept.push(all[i as int]));
            }
        }
        i += 1;
    }
    assert(all.take(i as int) =~= all);
    res
}

/// The order in which the interfaces are listed makes no difference: two lists
/// sorted as [`get_network_adapters`] sorts them, of the same interfaces in any
/// order, are the same.
pub proof fn law_listing_order_is_irrelevant(
    names: Seq<Seq<char>>,
    other_names: Seq<Seq<char>>,
    res: Seq<Seq<char>>,
    other_res: Seq<Seq<char>>,
)
    requires
        names.to_multiset() == other_names.to_multiset(),
        order::sorted(res),
        res.to_multiset() == adapters(names).to_multiset(),
        order::sorted(other_res),
        other_res.to_multiset() == adapters(other_names).to_multiset(),
    ensures
        res == other_res,
{
    let p = |name: Seq<char>| !is_virtual(name);
    lemma_filter_multiset(names, p);
    lemma_filter_multiset(other_names, p);
    order::law_sorted_list_is_unique(res, other_res);
}

/// What a filter keeps depends only on which elements there are.
proof fn lemma_filter_multiset<A>(s: Seq<A>, p: spec_fn(A) -> bool)
    ensures
        s.filter(p).to_multiset() == s.to_multiset().filter(p),
    decreases s.len(),
{
    reveal(Seq::filter);
    broadcast use vstd::multiset::group_multiset_axioms;

    s.to_multiset_ensures();
    s.filter(p).to_multiset_ensures();
    if s.len() == 0 {
        assert(s.filter(p).to_multiset() =~= s.to_multiset().filter(p));
    } else {
        let init = s.drop_last();
        lemma_filter_multiset(init, p);
        init.to_multiset_ensures();
        init.filter(p).to_multiset_ensures();
        assert(s =~= init.push(s.last()));
        assert(s.filter(p).to_multiset() =~= s.to_multiset().filter(p));
    }
}

/// Every adapter that is reported is one of the listed interfaces, and none of
/// them is virtual; every listed interface that is not virtual is reported.
pub proof fn law_exactly_the_real_adapters(names: Seq<Seq<char>>, res: Seq<Seq<char>>)
    requires
        res.to_multiset() == adapters(names).to_multiset(),
    ensures
        forall|name: Seq<char>|
            #[trigger] res.contains(name) == (names.contains(name) && !is_virtual(name)),
{
    let p = |name: Seq<char>| !is_virtual(name);
    lemma_filter_multiset(names, p);
    broadcast use vstd::multiset::group_multiset_axioms;

    names.to_multiset_ensures();
    res.to_multiset_ensures();
    adapters(names).to_multiset_ensures();
    assert forall|name: Seq<char>|
        #[trigger] res.contains(name) == (names.contains(name) && !is_virtual(name)) by {
        assert(res.contains(name) == (res.to_multiset().count(name) > 0));
        assert(names.contains(name) == (names.to_multiset().count(name) > 0));
        assert(p(name) == !is_virtual(name));
    }
}

/// An interface is no adapter exactly if it is the loopback, or its name is one
/// of these beginnings with anything behind it.
pub proof fn law_which_interfaces_are_virtual(name: Seq<char>)
    ensures
        is_virtual(name) == (name == "lo"@ || exists|rest: Seq<char>| #[trigger]
            is_made_by_software(name, rest)),
{
    text::law_what_occurs_is_part_of_the_text(name, "dummy"@);
    text::law_what_occurs_is_part_of_the_text(name, "veth"@);
    text::law_what_occurs_is_part_of_the_text(name, "br-"@);
    text::law_what_occurs_is_part_of_the_text(name, "docker"@);
    if text::begins_with(name, "dummy"@) {
        let rest = choose|rest: Seq<char>| name == #[trigger] ("dummy"@ + rest);
        assert(is_made_by_software(name, rest));
    }
    if text::begins_with(name, "veth"@) {
        let rest = choose|rest: Seq<char>| name == #[trigger] ("veth"@ + rest);
        assert(is_made_by_software(name, rest));
    }
    if text::begins_with(name, "br-"@) {
        let rest = choose|rest: Seq<char>| name == #[trigger] ("br-"@ + rest);
        assert(is_made_by_software(name, rest));
    }
    if text::begins_with(name, "docker"@) {
        let rest = choose|rest: Seq<char>| name == #[trigger] ("docker"@ + rest);
        assert(is_made_by_software(name, rest));
    }
}

/// The name has `rest` behind one of the beginnings that software gives to its
/// interfaces.
pub open spec fn is_made_by_software(name: Seq<char>, rest: Seq<char>) -> bool {
    ||| name == "dummy"@ + rest
    ||| name == "veth"@ + rest
    ||| name == "br-"@ + rest
    ||| name == "docker"@ + rest
}

/// Every interface that is an adapter is kept as often as it is listed, and none
/// that is not.
pub proof fn law_adapters_are_kept_as_often_as_listed(names: Seq<Seq<char>>, name: Seq<char>)
    ensures
        adapters(names).to_multiset().count(name) == (if is_virtual(name) {
            0
        } else {
            names.to_multiset().count(name)
        }),
{
    let p = |n: Seq<char>| !is_virtual(n);
    lemma_filter_multiset(names, p);
    broadcast use vstd::multiset::group_multiset_axioms;

    assert(p(name) == !is_virtual(name));
}

} // verus!
