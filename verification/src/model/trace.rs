//! Captured intermediate activations, for comparing against a reference.
use crate::text;
use vstd::prelude::*;

verus! {

/// Named vectors, in the order in which they were recorded.
#[derive(Debug)]
pub struct Trace<T> {
    pub records: Vec<(String, Vec<T>)>,
}

/// The vector first recorded under a name.
pub open spec fn first_record<T>(records: Seq<(String, Vec<T>)>, name: Seq<char>) -> Option<Seq<T>>
    decreases records.len(),
{
    if records.len() == 0 {
        None
    } else if records[0].0@ == name {
        Some(records[0].1@)
    } else {
        first_record(records.drop_first(), name)
    }
}

impl<T: Copy> Trace<T> {
    pub fn new() -> (r: Self)
        ensures
            r.records@.len() == 0,
    {
        Trace { records: Vec::new() }
    }

    /// Keep a copy of a vector under a name.
    pub fn record(&mut self, name: &str, data: &[T])
        ensures
            final(self).records@.len() == old(self).records@.len() + 1,
            final(self).records@.drop_last() == old(self).records@,
            final(self).records@.last().0@ == name@,
            final(self).records@.last().1@ == data@,
    {
        let mut v: Vec<T> = Vec::with_capacity(data.len());
        let mut i: usize = 0;
        while i < data.len()
            invariant
                i <= data@.len(),
                v@ == data@.take(i as int),
            decreases data.len() - i,
        {
            v.push(data[i]);
            i += 1;
            assert(v@ =~= data@.take(i as int));
        }
        assert(data@.take(data@.len() as int) =~= data@);
        self.records.push((name.to_owned(), v));
        assert(self.records@.drop_last() =~= old(self).records@);
    }

    /// The vector first recorded under a name.
    pub fn get(&self, name: &str) -> (r: Option<&[T]>)
        ensures
            match r {
                Some(v) => first_record(self.records@, name@) == Some(v@),
                None => first_record(self.records@, name@) is None,
            },
    {
        let mut i: usize = 0;
        assert(self.records@.skip(0) =~= self.records@);
        while i < self.records.len()
            invariant
                i <= self.records@.len(),
                first_record(self.records@, name@) == first_record(
                    self.records@.skip(i as int),
                    name@,
                ),
            decreases self.records.len() - i,
        {
            if text::str_eq(self.records[i].0.as_str(), name) {
                return Some(self.records[i].1.as_slice());
            }
            assert(self.records@.skip(i as int).drop_first() =~= self.records@.skip(i + 1));
            i += 1;
        }
        None
    }
}

proof fn lemma_first_of_more<T>(a: Seq<(String, Vec<T>)>, b: Seq<(String, Vec<T>)>, name: Seq<char>)
    ensures
        first_record(a + b, name) == match first_record(a, name) {
            Some(v) => Some(v),
            None => first_record(b, name),
        },
    decreases a.len(),
{
    if a.len() == 0 {
        assert(a + b =~= b);
    } else {
        assert((a + b).drop_first() =~= a.drop_first() + b);
        lemma_first_of_more(a.drop_first(), b, name);
    }
}

/// What was just recorded under a name that was not in use is what is found under it,
/// and nothing changes under other names.
pub proof fn law_a_record_is_found<T>(
    before: Seq<(String, Vec<T>)>,
    new: (String, Vec<T>),
    name: Seq<char>,
)
    ensures
        first_record(before.push(new), name) == if first_record(before, name) is None && new.0@
            == name {
            Some(new.1@)
        } else {
            first_record(before, name)
        },
{
    assert(before.push(new) =~= before + seq![new]);
    lemma_first_of_more(before, seq![new], name);
    assert(seq![new].drop_first() =~= Seq::empty());
    assert(first_record(seq![new].drop_first(), name) is None);
}

} // verus!
