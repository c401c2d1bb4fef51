//! Reassembly of materialized file contents in discovery order.
//!
//! Contents may be read concurrently and complete in any order; each
//! reading carries the position of its path in the discovery list, and
//! the records are put back together indexed by that position. The
//! resulting sequence is therefore the same whether the readings
//! completed sequentially or in any interleaving.

use vstd::prelude::*;
use vstd::string::*;
use crate::error::JockeyError;
use crate::output::{FileEntry, FileEntryV};
use crate::text::str_to_string;

verus! {

/// One completed read: the position of the file in discovery order and
/// its text content.
pub struct Reading {
    pub index: usize,
    pub content: String,
}

/// The mathematical image of a [`Reading`].
#[verifier::ext_equal]
pub struct ReadingV {
    pub index: usize,
    pub content: Seq<char>,
}

impl View for Reading {
    type V = ReadingV;

    open spec fn view(&self) -> ReadingV {
        ReadingV { index: self.index, content: self.content@ }
    }
}

impl DeepView for Reading {
    type V = ReadingV;

    open spec fn deep_view(&self) -> ReadingV {
        self.view()
    }
}

/// The content that position `i` ends up with: that of the last reading
/// for `i`, or none when no reading covers `i`.
pub open spec fn lookup_last(rds: Seq<ReadingV>, i: int) -> Option<Seq<char>>
    decreases rds.len(),
{
    if rds.len() == 0 {
        Option::None
    } else if rds.last().index == i {
        Option::Some(rds.last().content)
    } else {
        lookup_last(rds.drop_last(), i)
    }
}

/// Every reading's index lies within the path list.
pub open spec fn indexes_in_range(rds: Seq<ReadingV>, n: int) -> bool {
    forall|j: int| 0 <= j < rds.len() ==> (#[trigger] rds[j].index) < n
}

/// Every position is covered by some reading.
pub open spec fn all_covered(rds: Seq<ReadingV>, n: int) -> bool {
    forall|i: int| 0 <= i < n ==> (#[trigger] lookup_last(rds, i)) is Some
}

/// Puts completed readings back together in discovery order: record `i`
/// pairs path `i` with the content read for position `i`. It fails
/// exactly when a reading's position is out of range or a position was
/// never read.
pub fn assemble_records(paths: &Vec<String>, readings: &Vec<Reading>) -> (r: Result<
    Vec<FileEntry>,
    JockeyError,
>)
    ensures
        r is Ok <==> indexes_in_range(readings.deep_view(), paths@.len() as int) && all_covered(
            readings.deep_view(),
            paths@.len() as int,
        ),
        r matches Ok(v) ==> {
            &&& v.deep_view().len() == paths@.len()
            &&& forall|i: int|
                0 <= i < paths@.len() ==> (#[trigger] v.deep_view()[i]).path
                    == paths.deep_view()[i] && lookup_last(readings.deep_view(), i)
                    == Option::Some(v.deep_view()[i].content)
        },
        r matches Err(e) ==> e is Processing,
{
    let n = paths.len();
    let ghost rds = readings.deep_view();
    let mut slots: Vec<Option<String>> = Vec::new();
    let mut s: usize = 0;
    while s < n
        invariant
            s <= n,
            slots@.len() == s,
            forall|i: int| 0 <= i < s ==> slots@[i] is None,
        decreases n - s,
    {
        slots.push(Option::None);
        s += 1;
    }
    let m = readings.len();
    let mut k: usize = 0;
    proof {
        assert(rds.take(0) =~= Seq::<ReadingV>::empty());
        assert forall|i: int| 0 <= i < n implies lookup_last(rds.take(0), i) is None by {
            assert(rds.take(0).len() == 0);
        }
    }
    while k < m
        invariant
            k <= m,
            m == readings@.len(),
            rds == readings.deep_view(),
            rds.len() == m,
            slots@.len() == n,
            n == paths@.len(),
            forall|j: int| 0 <= j < k ==> (#[trigger] rds[j].index) < n,
            forall|i: int|
                0 <= i < n ==> match #[trigger] slots@[i] {
                    Option::Some(c) => lookup_last(rds.take(k as int), i) == Option::Some(c@),
                    Option::None => lookup_last(rds.take(k as int), i) is None,
                },
        decreases m - k,
    {
        let rd = &readings[k];
        proof {
            assert(rds[k as int] == readings@[k as int].deep_view());
        }
        if rd.index >= n {
            proof {
                assert(rds[k as int].index >= n);
                assert(!indexes_in_range(rds, n as int));
            }
            let mut msg = str_to_string("A file reading carried the out-of-range position ");
            let digits = crate::naming::u64_to_string(rd.index as u64);
            msg.append(digits.as_str());
            return Err(JockeyError::Processing(msg));
        }
        let content = rd.content.clone();
        slots.set(rd.index, Option::Some(content));
        proof {
            assert(rds.take(k as int + 1).last() == rds[k as int]);
            assert(rds.take(k as int + 1).drop_last() =~= rds.take(k as int));
            assert forall|i: int| 0 <= i < n implies match #[trigger] slots@[i] {
                Option::Some(c) => lookup_last(rds.take(k as int + 1), i) == Option::Some(c@),
                Option::None => lookup_last(rds.take(k as int + 1), i) is None,
            } by {
                if i != rds[k as int].index {
                    assert(lookup_last(rds.take(k as int + 1), i) == lookup_last(
                        rds.take(k as int),
                        i,
                    ));
                }
            }
        }
        k += 1;
    }
    proof {
        assert(rds.take(m as int) =~= rds);
    }
    let mut out: Vec<FileEntry> = Vec::new();
    let mut i: usize = 0;
    while i < n
        invariant
            i <= n,
            slots@.len() == n,
            n == paths@.len(),
            rds == readings.deep_view(),
            out.deep_view().len() == i,
            forall|x: int|
                0 <= x < n ==> match #[trigger] slots@[x] {
                    Option::Some(c) => lookup_last(rds, x) == Option::Some(c@),
                    Option::None => lookup_last(rds, x) is None,
                },
            forall|x: int|
                0 <= x < i ==> (#[trigger] out.deep_view()[x]).path == paths.deep_view()[x]
                    && lookup_last(rds, x) == Option::Some(out.deep_view()[x].content),
        decreases n - i,
    {
        match &slots[i] {
            Option::Some(c) => {
                let entry = FileEntry { path: paths[i].clone(), content: c.clone() };
                let ghost out0 = out.deep_view();
                let ghost ev = entry.deep_view();
                out.push(entry);
                proof {
                    assert(out.deep_view() =~~= out0 + seq![ev]);
                    assert(ev.path == paths.deep_view()[i as int]);
                    assert(lookup_last(rds, i as int) == Option::Some(ev.content));
                }
            },
            Option::None => {
                proof {
                    assert(lookup_last(rds, i as int) is None);
                }
                let mut msg = str_to_string("File was never materialized: ");
                msg.append(paths[i].as_str());
                return Err(JockeyError::Processing(msg));
            },
        }
        i += 1;
    }
    proof {
        assert(indexes_in_range(rds, n as int));
        assert forall|x: int| 0 <= x < n implies (#[trigger] lookup_last(rds, x)) is Some by {
            assert(lookup_last(rds, x) == Option::Some(out.deep_view()[x].content));
        }
    }
    Ok(out)
}

/// When each reading's content is determined by its position (reading a
/// fixed file always yields the same text), whatever it covers agrees
/// with that determination.
pub proof fn lemma_lookup_determined(rds: Seq<ReadingV>, f: spec_fn(int) -> Seq<char>, i: int)
    requires
        forall|j: int| 0 <= j < rds.len() ==> (#[trigger] rds[j]).content == f(rds[j].index as int),
    ensures
        lookup_last(rds, i) is Some ==> lookup_last(rds, i) == Option::Some(f(i)),
    decreases rds.len(),
{
    if rds.len() > 0 {
        assert(rds.last() == rds[rds.len() - 1]);
        if rds.last().index != i {
            assert(forall|j: int|
                0 <= j < rds.drop_last().len() ==> (#[trigger] rds.drop_last()[j]).content == f(
                    rds.drop_last()[j].index as int,
                ));
            lemma_lookup_determined(rds.drop_last(), f, i);
        }
    }
}

/// Parallel/sequential equivalence: two complete materializations of the
/// same path list whose readings both carry the contents the positions
/// determine — whatever order either completed in — assemble to the
/// same record sequence, in content and in order.
pub proof fn lemma_parallel_sequential_equal(
    paths: Seq<Seq<char>>,
    rds1: Seq<ReadingV>,
    rds2: Seq<ReadingV>,
    v1: Seq<FileEntryV>,
    v2: Seq<FileEntryV>,
    f: spec_fn(int) -> Seq<char>,
)
    requires
        forall|j: int|
            0 <= j < rds1.len() ==> (#[trigger] rds1[j]).content == f(rds1[j].index as int),
        forall|j: int|
            0 <= j < rds2.len() ==> (#[trigger] rds2[j]).content == f(rds2[j].index as int),
        v1.len() == paths.len(),
        v2.len() == paths.len(),
        forall|i: int|
            0 <= i < paths.len() ==> (#[trigger] v1[i]).path == paths[i] && lookup_last(rds1, i)
                == Option::Some(v1[i].content),
        forall|i: int|
            0 <= i < paths.len() ==> (#[trigger] v2[i]).path == paths[i] && lookup_last(rds2, i)
                == Option::Some(v2[i].content),
    ensures
        v1 =~~= v2,
{
    assert forall|i: int| 0 <= i < paths.len() implies v1[i] =~~= v2[i] by {
        lemma_lookup_determined(rds1, f, i);
        lemma_lookup_determined(rds2, f, i);
        assert(v1[i].content == f(i));
        assert(v2[i].content == f(i));
    }
}

} // verus!
