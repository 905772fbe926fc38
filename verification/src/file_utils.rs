//! File-handling decisions: content-hash change detection and
//! case-insensitive name matching for VFAT boot partitions.

use vstd::prelude::*;

use crate::strutil;

verus! {

/// A destination needs writing when it is absent or its content
/// differs from the source.
pub open spec fn needs_copy_spec(source: Seq<u8>, dest: Option<Seq<u8>>) -> bool {
    match dest {
        None => true,
        Some(d) => d != source,
    }
}

/// Decide whether a destination needs writing, by content comparison.
pub fn needs_copy(source: &Vec<u8>, dest: Option<&Vec<u8>>) -> (r: bool)
    ensures
        r == needs_copy_spec(source@, match dest {
            Some(d) => Some(d@),
            None => None,
        }),
{
    match dest {
        None => true,
        Some(d) => {
            if d.len() != source.len() {
                proof {
                    assert(d@.len() != source@.len());
                }
                return true;
            }
            let mut i: usize = 0;
            while i < source.len()
                invariant
                    dest matches Some(dd) && dd@ == d@,
                    d@.len() == source@.len(),
                    i <= source@.len(),
                    forall|j: int| 0 <= j < i ==> d@[j] == source@[j],
                decreases source@.len() - i,
            {
                if d[i] != source[i] {
                    proof {
                        if d@ == source@ {
                            assert(d@[i as int] == source@[i as int]);
                        }
                    }
                    return true;
                }
                i = i + 1;
            }
            proof {
                assert(d@ =~= source@);
            }
            false
        }
    }
}

/// Running a sync again over destinations that already hold their
/// source's bytes selects no file for writing: the second run of an
/// unchanged sync performs zero writes.
pub proof fn lemma_second_sync_writes_nothing(sources: Seq<Seq<u8>>, dests: Seq<Option<Seq<u8>>>)
    requires
        dests.len() == sources.len(),
        forall|i: int| 0 <= i < dests.len() ==> dests[i] == Some(sources[i]),
    ensures
        forall|i: int| 0 <= i < dests.len() ==> !needs_copy_spec(#[trigger] sources[i], dests[i]),
{
}

/// The first existing name that equals `want` up to ASCII case, so
/// that repeated operations on a case-preserving case-insensitive
/// filesystem reuse the directory entries they created before.
pub fn insensitive_lookup(existing: &Vec<String>, want: &str) -> (r: Option<usize>)
    ensures
        match r {
            Some(i) => i < existing@.len() && strutil::lower_codes(existing@[i as int]@)
                == strutil::lower_codes(want@) && forall|j: int|
                0 <= j < i ==> strutil::lower_codes((#[trigger] existing@[j])@)
                    != strutil::lower_codes(want@),
            None => forall|j: int|
                0 <= j < existing@.len() ==> strutil::lower_codes((#[trigger] existing@[j])@)
                    != strutil::lower_codes(want@),
        },
{
    let mut i: usize = 0;
    while i < existing.len()
        invariant
            i <= existing@.len(),
            forall|j: int|
                0 <= j < i ==> strutil::lower_codes((#[trigger] existing@[j])@)
                    != strutil::lower_codes(want@),
        decreases existing@.len() - i,
    {
        if strutil::eq_ignore_case(existing[i].as_str(), want) {
            return Some(i);
        }
        i = i + 1;
    }
    None
}

} // verus!
