//! Sets of texts.

use crate::text::{copy_texts, member, push_text, texts};
use vstd::prelude::*;

verus! {

/// The set of texts in a list.
pub open spec fn text_set(v: Seq<String>) -> Set<Seq<char>> {
    texts(v).to_set()
}

/// A set of texts, in the order in which they were put in.
#[derive(Debug)]
pub struct TextSet {
    items: Vec<String>,
}

impl View for TextSet {
    type V = Set<Seq<char>>;

    closed spec fn view(&self) -> Set<Seq<char>> {
        text_set(self.items@)
    }
}

impl TextSet {
    /// No text stands twice.
    #[verifier::type_invariant]
    pub closed spec fn wf(self) -> bool {
        texts(self.items@).no_duplicates()
    }

    /// The set of the texts in a list.
    pub fn from_texts(v: &Vec<String>) -> (r: Self)
        ensures
            r@ == text_set(v@),
    {
        let ghost all = texts(v@);
        let mut items: Vec<String> = Vec::new();
        let mut i: usize = 0;
        proof {
            assert(texts(items@) =~= Seq::<Seq<char>>::empty());
            assert(all.take(0).to_set() =~= Seq::<Seq<char>>::empty().to_set());
        }
        while i < v.len()
            invariant
                i <= v.len(),
                all == texts(v@),
                texts(items@).to_set() == all.take(i as int).to_set(),
                texts(items@).no_duplicates(),
            decreases v.len() - i,
        {
            let ghost before = texts(items@);
            let ghost x = v@[i as int]@;
            let ghost done = all.take(i as int);
            proof {
                assert(all.take(i + 1) =~= done.push(x));
                done.lemma_push_to_set_commute(x);
            }
            if member(&items, v[i].as_str()) {
                proof {
                    assert(before.to_set().contains(x));
                    assert(done.to_set().insert(x) =~= done.to_set());
                }
            } else {
                push_text(&mut items, v[i].clone());
                proof {
                    before.lemma_push_to_set_commute(x);
                }
            }
            i = i + 1;
        }
        proof {
            assert(all.take(i as int) =~= all);
        }
        TextSet { items }
    }

    /// The texts, each once.
    pub fn items(&self) -> (r: &Vec<String>)
        ensures
            text_set(r@) == self@,
            texts(r@).no_duplicates(),
    {
        proof {
            use_type_invariant(&*self);
        }
        &self.items
    }

    /// A copy.
    pub fn copy(&self) -> (r: TextSet)
        ensures
            r@ == self@,
    {
        proof {
            use_type_invariant(&*self);
        }
        TextSet { items: copy_texts(&self.items) }
    }
}

} // verus!
