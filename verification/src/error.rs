//! The failures that the store reports.

use vstd::prelude::*;
use vstd::string::*;
use crate::decimal::{all_digits, decimal, entry_name, is_digit, lemma_decimal_digits};

verus! {

/// `std::io::Error`, carried through the library as an opaque value.
#[verifier::external_type_specification]
#[verifier::external_body]
pub struct ExIoError(std::io::Error);

/// Why an operation of the store failed.
#[derive(Debug)]
pub enum FsError {
    /// The index file does not have the format of an index.
    BadIndex,
    /// An entry of the directory tree is not named by an identifier.
    BadDb,
    /// The index knows no issue with this identifier.
    NoIssue(u32),
    /// The file system refused an operation.
    Io(std::io::Error),
}

/// The characters of the shortest decimal text of `n`.
pub open spec fn decimal_chars(n: nat) -> Seq<char> {
    decimal(n).map_values(|b: u8| b as char)
}

/// The text that `std::io::Error` shows for itself through `Display`.
/// Nothing is claimed of it.
#[verifier::external_body]
fn io_error_text(err: &std::io::Error) -> (text: String) {
    format!("{}", err)
}

/// The digit `b` as a string.
fn digit_str(b: u8) -> (s: &'static str)
    requires
        is_digit(b),
    ensures
        s@ == seq![b as char],
{
    proof {
        reveal_strlit("0");
        reveal_strlit("1");
        reveal_strlit("2");
        reveal_strlit("3");
        reveal_strlit("4");
        reveal_strlit("5");
        reveal_strlit("6");
        reveal_strlit("7");
        reveal_strlit("8");
        reveal_strlit("9");
    }
    let s = match b {
        48 => "0",
        49 => "1",
        50 => "2",
        51 => "3",
        52 => "4",
        53 => "5",
        54 => "6",
        55 => "7",
        56 => "8",
        _ => "9",
    };
    assert(s@ =~= seq![b as char]);
    s
}

impl FsError {
    /// What the failure says of itself, in words.
    pub fn message(&self) -> (text: String)
        ensures
            match *self {
                FsError::BadIndex => text@ == "index corrupted"@,
                FsError::BadDb => text@ == "db corrupted"@,
                FsError::NoIssue(id) => text@ == "issue "@ + decimal_chars(id as nat)
                    + " not found"@,
                FsError::Io(_) => true,
            },
    {
        match self {
            FsError::BadIndex => "index corrupted".to_owned(),
            FsError::BadDb => "db corrupted".to_owned(),
            FsError::NoIssue(id) => {
                let digits = entry_name(*id);
                let mut text = "issue ".to_owned();
                let mut i: usize = 0;
                proof {
                    lemma_decimal_digits(*id as nat);
                    assert(decimal_chars(*id as nat).take(0) =~= Seq::<char>::empty());
                    assert(text@ =~= "issue "@ + decimal_chars(*id as nat).take(0));
                }
                while i < digits.len()
                    invariant
                        i <= digits@.len(),
                        digits@ == decimal(*id as nat),
                        all_digits(digits@),
                        text@ == "issue "@ + decimal_chars(*id as nat).take(i as int),
                    decreases digits@.len() - i,
                {
                    text.append(digit_str(digits[i]));
                    proof {
                        let all = decimal_chars(*id as nat);
                        assert(all.take(i + 1) =~= all.take(i as int).push(digits@[i as int] as char));
                        assert(text@ =~= "issue "@ + all.take(i + 1));
                    }
                    i = i + 1;
                }
                assert(decimal_chars(*id as nat).take(i as int) =~= decimal_chars(*id as nat));
                text.append(" not found");
                text
            },
            FsError::Io(err) => io_error_text(err),
        }
    }
}

} // verus!
