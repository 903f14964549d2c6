//! Binding: a logger's context grows by the pairs that are bound to it.

use crate::handler::{share, Context};
use std::sync::Arc;
use vstd::prelude::*;

verus! {

/// A context with one pair after the other stored in it; a later pair with the
/// key of an earlier pair or of an entry takes its place.
pub open spec fn overlaid(base: Map<Seq<char>, String>, pairs: Seq<(String, String)>) -> Map<Seq<char>, String>
    decreases pairs.len(),
{
    if pairs.len() == 0 {
        base
    } else {
        overlaid(base, pairs.drop_last()).insert(pairs.last().0@, pairs.last().1)
    }
}

/// The context of a logger to which pairs are bound: the parent's entries and
/// the pairs over them. Where no pair is given, the parent's context itself is
/// shared and nothing is copied.
pub fn bind_context(parent: &Arc<Context>, pairs: &Vec<(String, String)>) -> (r: Arc<Context>)
    ensures
        r@ == overlaid(parent@, pairs@),
        pairs.len() == 0 ==> r == *parent,
{
    if pairs.len() == 0 {
        return share(parent);
    }
    let mut context = parent.duplicate();
    let mut i: usize = 0;
    assert(pairs@.take(0) =~= Seq::<(String, String)>::empty());
    while i < pairs.len()
        invariant
            i <= pairs.len(),
            context@ == overlaid(parent@, pairs@.take(i as int)),
        decreases pairs.len() - i,
    {
        proof {
            assert(pairs@.take(i + 1).drop_last() =~= pairs@.take(i as int));
            assert(pairs@.take(i + 1).last() == pairs@[i as int]);
        }
        context.insert(pairs[i].0.clone(), pairs[i].1.clone());
        i += 1;
    }
    assert(pairs@.take(pairs.len() as int) =~= pairs@);
    Arc::new(context)
}

} // verus!
