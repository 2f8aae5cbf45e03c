use vstd::prelude::*;
use vstd::string::*;

use crate::date::{is_valid_day_number, Date, lemma_key_valid};
use crate::digits::{all_digits, digits_at, digits_value, parse_digits, lemma_digits_value_bound, lemma_pow10_values};
use crate::error::RenameError;
use crate::paths::{base_name, base_name_of};

verus! {

/// Whether a file name starts with a canonical code: `V`, eight digits (the date), `.`,
/// two digits (the sequence number), `__`, and at least one more character.
pub open spec fn has_code(name: Seq<char>) -> bool {
    &&& name.len() >= 15
    &&& name[0] == 'V'
    &&& all_digits(name.subrange(1, 9))
    &&& name[9] == '.'
    &&& all_digits(name.subrange(10, 12))
    &&& name[12] == '_'
    &&& name[13] == '_'
}

/// The date digits of a canonical code, as a number.
pub open spec fn code_date(name: Seq<char>) -> nat {
    digits_value(name.subrange(1, 9))
}

/// The sequence digits of a canonical code, as a number.
pub open spec fn code_seq(name: Seq<char>) -> nat {
    digits_value(name.subrange(10, 12))
}

/// The date number and sequence number that new scripts continue from, given the path of
/// the newest script: the code in its file name, or `today` with sequence `0` when
/// `today` comes after that code's date. `None` when the file name has no code or its
/// date is not a calendar day.
pub open spec fn decode(path: Seq<char>, today: Date) -> Option<(nat, nat)> {
    let name = base_name(path);
    if has_code(name) && is_valid_day_number(code_date(name)) {
        if today.key() > code_date(name) {
            Some((today.key(), 0nat))
        } else {
            Some((code_date(name), code_seq(name)))
        }
    } else {
        None
    }
}

/// The date number (`YYYYMMDD`) and sequence number that numbering continues from.
#[derive(Clone, Copy, Debug, PartialEq, Eq)]
pub struct Code {
    pub date: u32,
    pub seq: u64,
}

/// Whether the file name `name` starts with a canonical code.
pub fn starts_with_code(name: &str) -> (r: bool)
    ensures
        r == has_code(name@),
{
    let n = name.unicode_len();
    if n < 15 {
        return false;
    }
    name.get_char(0) == 'V' && digits_at(name, 1, 9) && name.get_char(9) == '.' && digits_at(
        name,
        10,
        12,
    ) && name.get_char(12) == '_' && name.get_char(13) == '_'
}

/// Reads the code of the newest script `filename` and applies the rollover rule: a
/// `today` after the code's date restarts the numbering at `today` with sequence `0`;
/// otherwise the code's date and sequence are kept.
pub fn get_code(filename: &str, today: &Date) -> (r: Result<Code, RenameError>)
    requires
        today.wf(),
    ensures
        match r {
            Ok(c) => decode(filename@, *today) == Some((c.date as nat, c.seq as nat)),
            Err(e) => decode(filename@, *today) is None && e == (RenameError::MalformedCode {
                file: e->file,
            }) && e->file@ == filename@,
        },
{
    let name = base_name_of(filename);
    let malformed = RenameError::MalformedCode { file: crate::text::to_owned_string(filename) };
    if !starts_with_code(name.as_str()) {
        return Err(malformed);
    }
    let date = parse_digits(name.as_str(), 1, 9);
    let seq = parse_digits(name.as_str(), 10, 12);
    proof {
        lemma_pow10_values();
        lemma_digits_value_bound(name@.subrange(1, 9));
        lemma_digits_value_bound(name@.subrange(10, 12));
    }
    let valid = Date::new((date / 10000) as u32, ((date / 100) % 100) as u32, (date % 100) as u32);
    if valid.is_none() {
        return Err(malformed);
    }
    let key = today.day_number();
    proof {
        lemma_key_valid(*today);
    }
    if key as u64 > date {
        Ok(Code { date: key, seq: 0 })
    } else {
        Ok(Code { date: date as u32, seq })
    }
}

} // verus!
