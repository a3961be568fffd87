//! Short, actionable messages for end users in place of internal error text.
use vstd::prelude::*;

verus! {

/// `pat` occurs in `s` at some position.
pub open spec fn contains_spec(s: Seq<char>, pat: Seq<char>) -> bool {
    exists|i: int| 0 <= i <= s.len() - pat.len() && #[trigger] s.subrange(i, i + pat.len()) == pat
}

/// Whether `pat` occurs in `s`.
pub fn contains(s: &str, pat: &str) -> (r: bool)
    ensures
        r == contains_spec(s@, pat@),
{
    let n = s.unicode_len();
    let m = pat.unicode_len();
    if m > n {
        return false;
    }
    if m == 0 {
        assert(s@.subrange(0int, 0int + pat@.len()) =~= pat@);
        return true;
    }
    let mut i: usize = 0;
    while i <= n - m
        invariant
            n == s@.len(),
            m == pat@.len(),
            1 <= m <= n,
            0 <= i <= n - m + 1,
            forall|k: int| 0 <= k < i ==> #[trigger] s@.subrange(k, k + pat@.len()) != pat@,
        decreases n - m + 1 - i,
    {
        let mut j: usize = 0;
        let mut matched = true;
        while j < m
            invariant
                n == s@.len(),
                m == pat@.len(),
                i + m <= n,
                0 <= j <= m,
                matched ==> forall|k: int| 0 <= k < j ==> s@[i + k] == pat@[k],
                !matched ==> s@.subrange(i as int, i + m) != pat@,
            decreases m - j,
        {
            if matched && s.get_char(i + j) != pat.get_char(j) {
                assert(s@.subrange(i as int, i + m)[j as int] != pat@[j as int]);
                matched = false;
            }
            j = j + 1;
        }
        if matched {
            assert(s@.subrange(i as int, i + pat@.len()) =~= pat@);
            return true;
        }
        assert(s@.subrange(i as int, i + pat@.len()) != pat@);
        i = i + 1;
    }
    assert(!contains_spec(s@, pat@)) by {
        if contains_spec(s@, pat@) {
            let k = choose|k: int|
                0 <= k <= s@.len() - pat@.len() && #[trigger] s@.subrange(k, k + pat@.len())
                    == pat@;
            assert(k < i);
        }
    }
    false
}

/// The user-facing message for an internal error text: the first matching
/// rule wins; anything else gets a generic message.
pub open spec fn friendly_message(e: Seq<char>) -> Seq<char> {
    if contains_spec(e, "permission denied"@) || contains_spec(e, "Permission denied"@) {
        "Access denied. Please check file permissions."@
    } else if contains_spec(e, "No such file"@) || contains_spec(e, "not found"@) {
        "File not found. Please select a valid file."@
    } else if contains_spec(e, "is a directory"@) {
        "A folder was selected instead of a file."@
    } else if contains_spec(e, "out of memory"@) || contains_spec(e, "OutOfMemory"@) {
        "Not enough memory. Try closing other applications or using a smaller file."@
    } else if contains_spec(e, "PDFium"@) || contains_spec(e, "pdfium"@) {
        "PDF processing error. The file may be corrupted or password-protected."@
    } else if contains_spec(e, "password"@) || contains_spec(e, "encrypted"@) {
        "This PDF is password-protected. Please provide an unprotected file."@
    } else if contains_spec(e, "corrupted"@) || contains_spec(e, "malformed"@) {
        "The file appears to be corrupted or invalid."@
    } else if contains_spec(e, "disk full"@) || contains_spec(e, "No space"@) {
        "Not enough disk space. Please free up some space and try again."@
    } else {
        "Conversion failed. Please try again with a different file."@
    }
}

/// Maps an internal error text to a short message without technical
/// details.
pub fn user_friendly_error(internal_error: &str) -> (r: String)
    ensures
        r@ == friendly_message(internal_error@),
{
    let e = internal_error;
    if contains(e, "permission denied") || contains(e, "Permission denied") {
        return String::from_str("Access denied. Please check file permissions.");
    }
    if contains(e, "No such file") || contains(e, "not found") {
        return String::from_str("File not found. Please select a valid file.");
    }
    if contains(e, "is a directory") {
        return String::from_str("A folder was selected instead of a file.");
    }
    if contains(e, "out of memory") || contains(e, "OutOfMemory") {
        return String::from_str(
            "Not enough memory. Try closing other applications or using a smaller file.",
        );
    }
    if contains(e, "PDFium") || contains(e, "pdfium") {
        return String::from_str(
            "PDF processing error. The file may be corrupted or password-protected.",
        );
    }
    if contains(e, "password") || contains(e, "encrypted") {
        return String::from_str(
            "This PDF is password-protected. Please provide an unprotected file.",
        );
    }
    if contains(e, "corrupted") || contains(e, "malformed") {
        return String::from_str("The file appears to be corrupted or invalid.");
    }
    if contains(e, "disk full") || contains(e, "No space") {
        return String::from_str("Not enough disk space. Please free up some space and try again.");
    }
    String::from_str("Conversion failed. Please try again with a different file.")
}

/// Whether a path holds `..`, which could reach outside the intended
/// directory.
pub fn has_parent_reference(path: &str) -> (r: bool)
    ensures
        r == contains_spec(path@, ".."@),
{
    contains(path, "..")
}

} // verus!
