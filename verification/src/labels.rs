//! Key/value tags, as objects carry them and selectors ask for them.

use vstd::prelude::*;

use crate::names;
use crate::names::NameMap;
use crate::text;

verus! {

/// Tags by key.
pub type Labels = NameMap<String>;

/// Whether all tags of a selector are among some tags.
pub fn satisfies(tags: &Labels, selector: &Labels) -> (r: bool)
    ensures
        r == selector@.submap_of(tags@),
{
    let pairs = selector.pairs();
    let ghost wanted = pairs.deep_view();
    for i in 0..pairs.len()
        invariant
            wanted == pairs.deep_view(),
            names::in_key_order(wanted),
            selector@ == names::as_map(wanted),
            forall|k: int|
                0 <= k < i ==> tags@.contains_key((#[trigger] wanted[k]).0) && tags@[wanted[k].0]
                    == wanted[k].1,
    {
        let ghost pair = wanted[i as int];
        proof {
            names::as_map_holds_pairs(wanted);
            assert(names::has_key(wanted, pair.0));
            assert(selector@.contains_key(pair.0));
            assert(selector@[pair.0] == pair.1);
        }
        match tags.get(pairs[i].0.as_str()) {
            Some(value) => {
                if !text::same(value.as_str(), pairs[i].1.as_str()) {
                    return false;
                }
            },
            None => {
                return false;
            },
        }
    }
    proof {
        names::as_map_holds_pairs(wanted);
        assert forall|k: Seq<char>| #[trigger] selector@.contains_key(k) implies tags@.contains_key(
            k,
        ) && tags@[k] == selector@[k] by {
            let i = choose|i: int| 0 <= i < wanted.len() && (#[trigger] wanted[i]).0 == k;
            assert(tags@.contains_key(wanted[i].0));
        }
    }
    true
}

/// Law: a selector is satisfied by its own tags and by any tags that add to
/// them.
pub proof fn selection_is_kept_by_more_tags(
    selector: Map<Seq<char>, Seq<char>>,
    tags: Map<Seq<char>, Seq<char>>,
    key: Seq<char>,
    value: Seq<char>,
)
    requires
        selector.submap_of(tags),
        !tags.contains_key(key),
    ensures
        selector.submap_of(selector),
        selector.submap_of(tags.insert(key, value)),
{
    assert forall|k: Seq<char>| #[trigger] selector.contains_key(k) implies tags.insert(
        key,
        value,
    ).contains_key(k) && tags.insert(key, value)[k] == selector[k] by {
        assert(tags.contains_key(k));
    }
}

} // verus!
