//! Selection and validation of the program's command-line argument: the
//! engine takes exactly one argument, the name of a CSV input file.

use vstd::prelude::*;

verus! {

/// The name ends in `.csv`.
pub open spec fn is_csv_name(s: Seq<char>) -> bool {
    s.len() >= 4 && s.subrange(s.len() - 4, s.len() as int) == ".csv"@
}

/// Accepts a file name iff it names a CSV file; an accepted name is returned
/// unchanged.
pub fn validate_file(s: &str) -> (r: Result<String, String>)
    ensures
        is_csv_name(s@) ==> (r matches Ok(p) && p@ == s@),
        !is_csv_name(s@) ==> (r matches Err(m) && m@ == "File Provided is not csv"@),
{
    proof {
        reveal_strlit(".csv");
    }
    let n = s.unicode_len();
    if n >= 4 && s.get_char(n - 4) == '.' && s.get_char(n - 3) == 'c' && s.get_char(n - 2) == 's'
        && s.get_char(n - 1) == 'v' {
        proof {
            assert(s@.subrange(s@.len() - 4, s@.len() as int) =~= ".csv"@);
        }
        Ok(s.to_owned())
    } else {
        proof {
            if is_csv_name(s@) {
                let t = s@.subrange(s@.len() - 4, s@.len() as int);
                assert(t[0] == s@[s@.len() - 4]);
                assert(t[1] == s@[s@.len() - 3]);
                assert(t[2] == s@[s@.len() - 2]);
                assert(t[3] == s@[s@.len() - 1]);
                assert(t[0] == '.' && t[1] == 'c' && t[2] == 's' && t[3] == 'v');
            }
        }
        Err("File Provided is not csv".to_owned())
    }
}

/// Selects the input file from the program's argument list, whose first
/// element names the program itself: there must be exactly one argument,
/// and it must name a CSV file.
pub fn get_args(args: &Vec<String>) -> (r: Result<String, String>)
    ensures
        args@.len() == 2 && is_csv_name(args@[1]@) ==> (r matches Ok(p) && p@ == args@[1]@),
        args@.len() == 2 && !is_csv_name(args@[1]@) ==> (r matches Err(m) && m@
            == "File Provided is not csv"@),
        args@.len() != 2 ==> (r matches Err(m) && m@ == "expected exactly one CSV file path"@),
{
    if args.len() != 2 {
        Err("expected exactly one CSV file path".to_owned())
    } else {
        validate_file(args[1].as_str())
    }
}

} // verus!
