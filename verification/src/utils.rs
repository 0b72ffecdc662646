//! Small helpers around the store: the profile file check, trailing
//! newline trimming for captured snippet text, and the classification of
//! a yes/no answer.

use vstd::prelude::*;

verus! {

/// Relies on `directories::ProjectDirs::from` and `data_dir`, and on
/// `std::path::Path::exists`: whether the named file is present under
/// the tool's data directory.  The answer depends on the machine's
/// disk, so nothing is promised of it.
#[verifier::external_body]
fn database_file_exists(name: &str) -> bool {
    let dirs = directories::ProjectDirs::from("", "", "rtend").expect(
        "could not resolve the data directory",
    );
    dirs.data_dir().join(name).exists()
}

/// Whether the named profile's database file is already present on this
/// machine.
pub fn check_database_exists(name: &str) -> bool {
    database_file_exists(name)
}

/// The text with every trailing line feed and carriage return removed.
pub open spec fn trimmed(s: Seq<char>) -> Seq<char>
    decreases s.len(),
{
    if s.len() > 0 && (s.last() == '\n' || s.last() == '\r') {
        trimmed(s.drop_last())
    } else {
        s
    }
}

fn trim_len(s: &str, keep: usize) -> (r: usize)
    requires
        keep <= s@.len(),
        trimmed(s@) == trimmed(s@.take(keep as int)),
    ensures
        r <= s@.len(),
        s@.take(r as int) == trimmed(s@),
    decreases keep,
{
    if keep == 0 {
        proof {
            assert(s@.take(0) =~= Seq::<char>::empty());
        }
        0
    } else {
        let c = s.get_char(keep - 1);
        proof {
            assert(s@.take(keep as int).last() == s@[keep - 1]);
            assert(s@.take(keep as int).drop_last() =~= s@.take(keep as int - 1));
        }
        if c == '\n' || c == '\r' {
            trim_len(s, keep - 1)
        } else {
            keep
        }
    }
}

/// Removes trailing newline and carriage-return characters from the
/// captured text, in place, and returns the trimmed text as well.
pub fn trim_trailing_newline(s: &mut String) -> (r: String)
    ensures
        r@ == trimmed(old(s)@),
        final(s)@ == trimmed(old(s)@),
{
    let n = s.as_str().unicode_len();
    proof {
        assert(s@.take(n as int) =~= s@);
    }
    let keep = trim_len(s.as_str(), n);
    let t = s.as_str().substring_char(0, keep);
    let r = String::from_str(t);
    let replacement = String::from_str(t);
    *s = replacement;
    r
}

/// How a yes/no answer reads: affirmative, negative, or unrecognised.
pub open spec fn spec_parse_yes_no(s: Seq<char>) -> Option<bool> {
    if s == "y"@ || s == "Y"@ || s == "yes"@ || s == "YES"@ || s == "Yes"@ {
        Some(true)
    } else if s == "n"@ || s == "N"@ || s == "no"@ || s == "NO"@ || s == "No"@ {
        Some(false)
    } else {
        None
    }
}

fn str_eq(a: &str, b: &str) -> (r: bool)
    ensures
        r == (a@ == b@),
{
    let an = a.unicode_len();
    let bn = b.unicode_len();
    if an != bn {
        proof {
            assert(a@.len() != b@.len());
        }
        return false;
    }
    let mut k: usize = 0;
    while k < an
        invariant
            an == a@.len(),
            an == b@.len(),
            k <= an,
            forall|t: int| 0 <= t < k ==> a@[t] == b@[t],
        decreases an - k,
    {
        if a.get_char(k) != b.get_char(k) {
            return false;
        }
        k += 1;
    }
    proof {
        assert(a@ =~= b@);
    }
    true
}

/// Classifies an answer as affirmative (`y`, `Y`, `yes`, `YES`, `Yes`),
/// negative (`n`, `N`, `no`, `NO`, `No`), or unrecognised.
pub fn parse_yes_no(input: &str) -> (r: Option<bool>)
    ensures
        r == spec_parse_yes_no(input@),
{
    if str_eq(input, "y") || str_eq(input, "Y") || str_eq(input, "yes") || str_eq(input, "YES")
        || str_eq(input, "Yes") {
        Some(true)
    } else if str_eq(input, "n") || str_eq(input, "N") || str_eq(input, "no") || str_eq(
        input,
        "NO",
    ) || str_eq(input, "No") {
        Some(false)
    } else {
        None
    }
}

} // verus!
