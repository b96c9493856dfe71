//! The fields of a header that a fetch exposes, as text.

use crate::types::{HeaderDoc, HeaderView};
use vstd::prelude::*;

verus! {

/// The character of a decimal digit.
pub open spec fn digit_char(d: nat) -> char {
    if d == 0 {
        '0'
    } else if d == 1 {
        '1'
    } else if d == 2 {
        '2'
    } else if d == 3 {
        '3'
    } else if d == 4 {
        '4'
    } else if d == 5 {
        '5'
    } else if d == 6 {
        '6'
    } else if d == 7 {
        '7'
    } else if d == 8 {
        '8'
    } else {
        '9'
    }
}

/// The decimal numeral of `n`, without leading zeros.
pub open spec fn decimal(n: nat) -> Seq<char>
    decreases n,
{
    if n < 10 {
        seq![digit_char(n)]
    } else {
        decimal(n / 10).push(digit_char(n % 10))
    }
}

/// The text of one decimal digit.
fn digit_text(d: u64) -> (text: &'static str)
    requires
        d < 10,
    ensures
        text@ == seq![digit_char(d as nat)],
{
    proof {
        reveal_strlit("0");
        reveal_strlit("1");
        reveal_strlit("2");
        reveal_strlit("3");
        reveal_strlit("4");
        reveal_strlit("5");
        reveal_strlit("6");
        reveal_strlit("7");
        reveal_strlit("8");
        reveal_strlit("9");
    }
    let text = if d == 0 {
        "0"
    } else if d == 1 {
        "1"
    } else if d == 2 {
        "2"
    } else if d == 3 {
        "3"
    } else if d == 4 {
        "4"
    } else if d == 5 {
        "5"
    } else if d == 6 {
        "6"
    } else if d == 7 {
        "7"
    } else if d == 8 {
        "8"
    } else {
        "9"
    };
    proof {
        assert(text@ =~= seq![digit_char(d as nat)]);
    }
    text
}

/// The decimal numeral of `n`.
pub fn to_decimal(n: u64) -> (text: String)
    ensures
        text@ == decimal(n as nat),
{
    let mut digits: Vec<u64> = Vec::new();
    digits.push(n % 10);
    let mut rest: u64 = n / 10;
    let ghost mut tail: Seq<char> = seq![digit_char((n % 10) as nat)];
    while rest > 0
        invariant
            digits@.len() == tail.len(),
            digits@.len() >= 1,
            forall|j: int|
                0 <= j < digits@.len() ==> digits@[j] < 10 && tail[tail.len() - 1 - j]
                    == digit_char(#[trigger] digits@[j] as nat),
            decimal(n as nat) == (if rest > 0 {
                decimal(rest as nat)
            } else {
                Seq::<char>::empty()
            }) + tail,
        decreases rest,
    {
        let d = rest % 10;
        let ghost before = tail;
        digits.push(d);
        proof {
            tail = seq![digit_char(d as nat)] + before;
            let lead = if rest / 10 > 0 {
                decimal((rest / 10) as nat)
            } else {
                Seq::<char>::empty()
            };
            assert(decimal(rest as nat) =~= lead + seq![digit_char(d as nat)]);
            assert(decimal(n as nat) =~= lead + tail);
            assert forall|j: int| 0 <= j < digits@.len() implies digits@[j] < 10 && tail[tail.len()
                - 1 - j] == digit_char(#[trigger] digits@[j] as nat) by {
                if j < before.len() {
                    assert(tail[tail.len() - 1 - j] == before[before.len() - 1 - j]);
                }
            }
        }
        rest = rest / 10;
    }
    proof {
        assert(decimal(n as nat) =~= tail);
    }
    let mut text = String::new();
    let mut i: usize = digits.len();
    while i > 0
        invariant
            i <= digits@.len(),
            digits@.len() == tail.len(),
            forall|j: int|
                0 <= j < digits@.len() ==> digits@[j] < 10 && tail[tail.len() - 1 - j]
                    == digit_char(#[trigger] digits@[j] as nat),
            text@ == tail.take(tail.len() - i),
        decreases i,
    {
        i = i - 1;
        let ghost before = text@;
        text.append(digit_text(digits[i]));
        proof {
            assert(text@ =~= tail.take(tail.len() - i));
        }
    }
    proof {
        assert(tail.take(tail.len() as int) =~= tail);
    }
    text
}

/// The fields of `header` that a fetch exposes, each under its name: the
/// content type, the length in bytes, the identifier, the number of fragments
/// and the time of the upload.
pub open spec fn metadata_of(header: HeaderView) -> Seq<(Seq<char>, Seq<char>)> {
    seq![
        ("content-type"@, header.content_type),
        ("content-length"@, decimal(header.content_length as nat)),
        ("X-ID"@, header.id),
        ("X-CHUNKS"@, decimal(header.total_chunks as nat)),
        ("X-UPLOADED-AT"@, decimal(header.uploaded_at as nat)),
    ]
}

/// The names and values of a list of fields.
pub open spec fn field_views(fields: Seq<(String, String)>) -> Seq<(Seq<char>, Seq<char>)> {
    fields.map_values(|f: (String, String)| (f.0@, f.1@))
}

/// The fields of `header` that a fetch exposes, in the order in which they
/// are sent.
pub fn metadata_fields(header: &HeaderDoc) -> (fields: Vec<(String, String)>)
    ensures
        field_views(fields@) == metadata_of(header@),
{
    let mut fields: Vec<(String, String)> = Vec::new();
    fields.push(("content-type".to_owned(), header.content_type.clone()));
    fields.push(("content-length".to_owned(), to_decimal(header.content_length as u64)));
    fields.push(("X-ID".to_owned(), header.id.clone()));
    fields.push(("X-CHUNKS".to_owned(), to_decimal(header.total_chunks as u64)));
    fields.push(("X-UPLOADED-AT".to_owned(), to_decimal(header.uploaded_at)));
    proof {
        assert(field_views(fields@) =~= metadata_of(header@));
    }
    fields
}

} // verus!
