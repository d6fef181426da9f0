//! The file-filler tool's planning logic: which files it works on and
//! whether a previous run's files can be reused. Creating, writing and
//! reading the files is the surrounding program's business.

use vstd::prelude::*;
use vstd::string::*;
use crate::text::{dec_digits, u128_to_string};

verus! {

/// The path of filler file `i` inside the target directory.
pub open spec fn spec_filler_path(dir: Seq<char>, i: nat) -> Seq<char> {
    dir + "/filler_"@ + dec_digits(i)
}

/// Builds the per-file paths `<dir>/filler_<i>` for the configured count.
pub fn make_file_paths(file_count: u16, target_dir: &str) -> (r: Vec<String>)
    ensures
        r.len() == file_count,
        forall|i: int|
            0 <= i < file_count ==> r.deep_view()[i] == spec_filler_path(target_dir@, i as nat),
{
    let mut out: Vec<String> = Vec::new();
    let mut i: u16 = 0;
    while i < file_count
        invariant
            0 <= i <= file_count,
            out.len() == i,
            forall|j: int|
                0 <= j < i ==> out.deep_view()[j] == spec_filler_path(target_dir@, j as nat),
        decreases file_count - i,
    {
        let mut p = String::from_str(target_dir);
        p.append("/filler_");
        let digits = u128_to_string(i as u128);
        p.append(digits.as_str());
        proof {
            assert(p@ =~= spec_filler_path(target_dir@, i as nat));
        }
        let ghost before = out.deep_view();
        out.push(p);
        proof {
            assert forall|j: int| 0 <= j < i + 1 implies out.deep_view()[j] == spec_filler_path(
                target_dir@,
                j as nat,
            ) by {
                if j < i {
                    assert(out.deep_view()[j] == before[j]);
                } else {
                    assert(out.deep_view()[j] == p@);
                }
            }
        }
        i = i + 1;
    }
    out
}

/// How many probed files exist with exactly the expected size.
pub open spec fn spec_matching_count(sizes: Seq<Option<u128>>, expected_size: u128) -> nat
    decreases sizes.len(),
{
    if sizes.len() == 0 {
        0
    } else {
        spec_matching_count(sizes.drop_last(), expected_size) + (if sizes.last() == Some(
            expected_size,
        ) {
            1nat
        } else {
            0nat
        })
    }
}

/// Decides whether the filler files of a previous run can be reused: every
/// expected file must already exist with exactly the expected size. The
/// caller probes each path and hands in its size, or nothing where the
/// file does not exist.
pub fn config_files_already_there(
    expected_count: usize,
    expected_size: u128,
    sizes: &Vec<Option<u128>>,
) -> (r: bool)
    ensures
        r == (spec_matching_count(sizes@, expected_size) == expected_count),
{
    let mut count: usize = 0;
    let mut i: usize = 0;
    while i < sizes.len()
        invariant
            0 <= i <= sizes@.len(),
            count <= i,
            count == spec_matching_count(sizes@.subrange(0, i as int), expected_size),
        decreases sizes@.len() - i,
    {
        let matches = match sizes[i] {
            Some(v) => v == expected_size,
            None => false,
        };
        proof {
            assert(sizes@.subrange(0, i + 1).drop_last() =~= sizes@.subrange(0, i as int));
            assert(sizes@.subrange(0, i + 1).last() == sizes@[i as int]);
        }
        if matches {
            count = count + 1;
        }
        i = i + 1;
    }
    proof {
        assert(sizes@.subrange(0, sizes@.len() as int) =~= sizes@);
    }
    count == expected_count
}

} // verus!
