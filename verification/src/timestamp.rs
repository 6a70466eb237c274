//! The artifact naming convention: a backup's file name embeds the second
//! at which its combination step began, written `backup-YYYY-MM-DDTHH-MM-SS.tar.gz`.
//! Formatting, parsing and the conversion to seconds since the Unix epoch
//! are verified, and parsing is proved to invert formatting exactly.

use vstd::prelude::*;
use crate::text::{
    all_digits, digit_char, digit_val, digits_val, ends_with, four_digit_chars, is_digit,
    starts_with, str_ends_with, str_starts_with, two_digit_chars,
};

verus! {

/// A calendar second in the proleptic Gregorian calendar, as the naming
/// convention writes it.
#[derive(Clone, Copy, Debug, PartialEq, Eq, Structural)]
pub struct Timestamp {
    pub year: u16,
    pub month: u8,
    pub day: u8,
    pub hour: u8,
    pub minute: u8,
    pub second: u8,
}

pub open spec fn is_leap_year(y: int) -> bool {
    y % 4 == 0 && (y % 100 != 0 || y % 400 == 0)
}

pub open spec fn days_in_month(y: int, m: int) -> int {
    if m == 1 || m == 3 || m == 5 || m == 7 || m == 8 || m == 10 || m == 12 {
        31
    } else if m == 4 || m == 6 || m == 9 || m == 11 {
        30
    } else if is_leap_year(y) {
        29
    } else {
        28
    }
}

impl Timestamp {
    /// A calendar second the naming convention can express: four-digit year,
    /// real month, day, and time of day.
    pub open spec fn wf(self) -> bool {
        &&& self.year <= 9999
        &&& 1 <= self.month <= 12
        &&& 1 <= self.day <= days_in_month(self.year as int, self.month as int)
        &&& self.hour < 24
        &&& self.minute < 60
        &&& self.second < 60
    }

    /// Days between this day and 1970-01-01, negative before it.
    pub open spec fn spec_epoch_days(self) -> int {
        let y = if self.month <= 2 {
            self.year + 399
        } else {
            self.year + 400
        };
        let era = y / 400;
        let yoe = y % 400;
        let mp = if self.month > 2 {
            self.month - 3
        } else {
            self.month + 9
        };
        let doy = (153 * mp + 2) / 5 + self.day - 1;
        let doe = yoe * 365 + yoe / 4 - yoe / 100 + doy;
        era * 146097 + doe - 719468 - 146097
    }

    /// Seconds between this instant and 1970-01-01T00:00:00,
    /// negative before it.
    pub open spec fn spec_epoch_seconds(self) -> int {
        self.spec_epoch_days() * 86400 + self.hour * 3600 + self.minute * 60 + self.second
    }

    /// Seconds since the Unix epoch.
    pub fn epoch_seconds(&self) -> (r: i64)
        requires
            self.wf(),
        ensures
            r == self.spec_epoch_seconds(),
    {
        let y: u64 = if self.month <= 2 {
            self.year as u64 + 399
        } else {
            self.year as u64 + 400
        };
        let era: u64 = y / 400;
        let yoe: u64 = y % 400;
        let mp: u64 = if self.month > 2 {
            self.month as u64 - 3
        } else {
            self.month as u64 + 9
        };
        let doy: u64 = (153 * mp + 2) / 5 + self.day as u64 - 1;
        let doe: u64 = yoe * 365 + yoe / 4 - yoe / 100 + doy;
        let shifted: u64 = era * 146097 + doe;
        let days: i64 = shifted as i64 - 719468 - 146097;
        days * 86400 + self.hour as i64 * 3600 + self.minute as i64 * 60 + self.second as i64
    }
}

/// The nineteen characters `YYYY-MM-DDTHH-MM-SS` for `t`.
pub open spec fn timestamp_chars(t: Timestamp) -> Seq<char> {
    four_digit_chars(t.year as int) + seq!['-'] + two_digit_chars(t.month as int) + seq!['-']
        + two_digit_chars(t.day as int) + seq!['T'] + two_digit_chars(t.hour as int) + seq!['-']
        + two_digit_chars(t.minute as int) + seq!['-'] + two_digit_chars(t.second as int)
}

/// The full artifact file name for `t`.
pub open spec fn artifact_name_chars(t: Timestamp) -> Seq<char> {
    seq!['b', 'a', 'c', 'k', 'u', 'p', '-'] + timestamp_chars(t) + seq![
        '.',
        't',
        'a',
        'r',
        '.',
        'g',
        'z',
    ]
}

/// The timestamp written in `s`, if `s` is exactly nineteen characters of
/// the form `YYYY-MM-DDTHH-MM-SS` naming a well-formed calendar second.
pub open spec fn spec_parse_timestamp(s: Seq<char>) -> Option<Timestamp> {
    if s.len() == 19 && all_digits(s.subrange(0, 4)) && s[4] == '-' && all_digits(
        s.subrange(5, 7),
    ) && s[7] == '-' && all_digits(s.subrange(8, 10)) && s[10] == 'T' && all_digits(
        s.subrange(11, 13),
    ) && s[13] == '-' && all_digits(s.subrange(14, 16)) && s[16] == '-' && all_digits(
        s.subrange(17, 19),
    ) {
        let t = Timestamp {
            year: digits_val(s.subrange(0, 4)) as u16,
            month: digits_val(s.subrange(5, 7)) as u8,
            day: digits_val(s.subrange(8, 10)) as u8,
            hour: digits_val(s.subrange(11, 13)) as u8,
            minute: digits_val(s.subrange(14, 16)) as u8,
            second: digits_val(s.subrange(17, 19)) as u8,
        };
        if t.wf() {
            Some(t)
        } else {
            None
        }
    } else {
        None
    }
}

/// The timestamp embedded in the artifact name `s`, if `s` follows the
/// naming convention; `None` marks `s` unparseable.
pub open spec fn spec_parse_backup_date(s: Seq<char>) -> Option<Timestamp> {
    if starts_with(s, seq!['b', 'a', 'c', 'k', 'u', 'p', '-']) && ends_with(
        s,
        seq!['.', 't', 'a', 'r', '.', 'g', 'z'],
    ) && s.len() >= 14 {
        spec_parse_timestamp(s.subrange(7, s.len() - 7))
    } else {
        None
    }
}


/// Days in `m` of year `y`.
pub fn days_in_month_exec(y: u16, m: u8) -> (r: u8)
    ensures
        r == days_in_month(y as int, m as int),
{
    if m == 1 || m == 3 || m == 5 || m == 7 || m == 8 || m == 10 || m == 12 {
        31
    } else if m == 4 || m == 6 || m == 9 || m == 11 {
        30
    } else if y % 4 == 0 && (y % 100 != 0 || y % 400 == 0) {
        29
    } else {
        28
    }
}

impl Timestamp {
    /// The nineteen characters `YYYY-MM-DDTHH-MM-SS`.
    pub fn format_timestamp(&self) -> (r: String)
        requires
            self.wf(),
        ensures
            r@ == timestamp_chars(*self),
    {
        proof {
            reveal_strlit("-");
            reveal_strlit("T");
        }
        let mut s = String::new();
        crate::text::push_four_digits(&mut s, self.year);
        s.append("-");
        crate::text::push_two_digits(&mut s, self.month);
        s.append("-");
        crate::text::push_two_digits(&mut s, self.day);
        s.append("T");
        crate::text::push_two_digits(&mut s, self.hour);
        s.append("-");
        crate::text::push_two_digits(&mut s, self.minute);
        s.append("-");
        crate::text::push_two_digits(&mut s, self.second);
        proof {
            assert("-"@ =~= seq!['-']);
            assert("T"@ =~= seq!['T']);
            assert(s@ =~= timestamp_chars(*self));
        }
        s
    }

    /// The artifact file name that embeds this timestamp.
    pub fn artifact_name(&self) -> (r: String)
        requires
            self.wf(),
        ensures
            r@ == artifact_name_chars(*self),
    {
        proof {
            reveal_strlit("backup-");
            reveal_strlit(".tar.gz");
        }
        let mut s = String::new();
        s.append("backup-");
        let ts = self.format_timestamp();
        s.append(ts.as_str());
        s.append(".tar.gz");
        proof {
            assert("backup-"@ =~= seq!['b', 'a', 'c', 'k', 'u', 'p', '-']);
            assert(".tar.gz"@ =~= seq!['.', 't', 'a', 'r', '.', 'g', 'z']);
            assert(s@ =~= artifact_name_chars(*self));
        }
        s
    }
}

/// Reads the two-digit number at offset `off` of `s`.
fn read_two_digits(s: &str, off: usize) -> (r: Option<u8>)
    requires
        off + 2 <= s@.len(),
        off <= 20,
    ensures
        r matches Some(v) ==> all_digits(s@.subrange(off as int, off + 2)) && v == digits_val(
            s@.subrange(off as int, off + 2),
        ),
        r is None ==> !all_digits(s@.subrange(off as int, off + 2)),
{
    let c0 = s.get_char(off);
    let c1 = s.get_char(off + 1);
    let ghost piece = s@.subrange(off as int, off + 2);
    proof {
        assert(piece[0] == c0);
        assert(piece[1] == c1);
        assert(piece.drop_last() =~= seq![c0]);
        assert(seq![c0].drop_last() =~= Seq::<char>::empty());
        assert(digits_val(Seq::<char>::empty()) == 0);
        assert(digits_val(seq![c0]) == digit_val(c0));
        assert(digits_val(piece) == 10 * digit_val(c0) + digit_val(c1));
    }
    if '0' <= c0 && c0 <= '9' && '0' <= c1 && c1 <= '9' {
        let v: u8 = 10 * (c0 as u32 - '0' as u32) as u8 + (c1 as u32 - '0' as u32) as u8;
        proof {
            assert(forall|j: int| 0 <= j < piece.len() ==> is_digit(#[trigger] piece[j]));
        }
        Some(v)
    } else {
        None
    }
}

/// Reads the four-digit number at offset `off` of `s`.
fn read_four_digits(s: &str, off: usize) -> (r: Option<u16>)
    requires
        off + 4 <= s@.len(),
        off <= 20,
    ensures
        r matches Some(v) ==> all_digits(s@.subrange(off as int, off + 4)) && v == digits_val(
            s@.subrange(off as int, off + 4),
        ),
        r is None ==> !all_digits(s@.subrange(off as int, off + 4)),
{
    let c0 = s.get_char(off);
    let c1 = s.get_char(off + 1);
    let c2 = s.get_char(off + 2);
    let c3 = s.get_char(off + 3);
    let ghost piece = s@.subrange(off as int, off + 4);
    proof {
        assert(piece[0] == c0);
        assert(piece[1] == c1);
        assert(piece[2] == c2);
        assert(piece[3] == c3);
        assert(piece.drop_last() =~= seq![c0, c1, c2]);
        assert(seq![c0, c1, c2].drop_last() =~= seq![c0, c1]);
        assert(seq![c0, c1].drop_last() =~= seq![c0]);
        assert(seq![c0].drop_last() =~= Seq::<char>::empty());
        assert(digits_val(Seq::<char>::empty()) == 0);
        assert(digits_val(seq![c0]) == digit_val(c0));
        assert(digits_val(seq![c0, c1]) == 10 * digit_val(c0) + digit_val(c1));
        assert(digits_val(seq![c0, c1, c2]) == 100 * digit_val(c0) + 10 * digit_val(c1)
            + digit_val(c2));
        assert(digits_val(piece) == 1000 * digit_val(c0) + 100 * digit_val(c1) + 10 * digit_val(
            c2,
        ) + digit_val(c3));
    }
    if '0' <= c0 && c0 <= '9' && '0' <= c1 && c1 <= '9' && '0' <= c2 && c2 <= '9' && '0' <= c3
        && c3 <= '9' {
        let v: u16 = 1000 * (c0 as u32 - '0' as u32) as u16 + 100 * (c1 as u32 - '0' as u32) as u16
            + 10 * (c2 as u32 - '0' as u32) as u16 + (c3 as u32 - '0' as u32) as u16;
        proof {
            assert(forall|j: int| 0 <= j < piece.len() ==> is_digit(#[trigger] piece[j]));
        }
        Some(v)
    } else {
        None
    }
}

/// Parses the nineteen-character timestamp form `YYYY-MM-DDTHH-MM-SS`.
pub fn parse_timestamp_str(s: &str) -> (r: Option<Timestamp>)
    ensures
        r == spec_parse_timestamp(s@),
{
    let len = s.unicode_len();
    if len != 19 {
        return None;
    }
    let year = match read_four_digits(s, 0) {
        Some(v) => v,
        None => {
            return None;
        },
    };
    if s.get_char(4) != '-' {
        return None;
    }
    let month = match read_two_digits(s, 5) {
        Some(v) => v,
        None => {
            return None;
        },
    };
    if s.get_char(7) != '-' {
        return None;
    }
    let day = match read_two_digits(s, 8) {
        Some(v) => v,
        None => {
            return None;
        },
    };
    if s.get_char(10) != 'T' {
        return None;
    }
    let hour = match read_two_digits(s, 11) {
        Some(v) => v,
        None => {
            return None;
        },
    };
    if s.get_char(13) != '-' {
        return None;
    }
    let minute = match read_two_digits(s, 14) {
        Some(v) => v,
        None => {
            return None;
        },
    };
    if s.get_char(16) != '-' {
        return None;
    }
    let second = match read_two_digits(s, 17) {
        Some(v) => v,
        None => {
            return None;
        },
    };
    let t = Timestamp { year, month, day, hour, minute, second };
    let ok = year <= 9999 && 1 <= month && month <= 12 && 1 <= day && day <= days_in_month_exec(
        year,
        month,
    ) && hour < 24 && minute < 60 && second < 60;
    if ok {
        Some(t)
    } else {
        None
    }
}

/// The timestamp embedded in the artifact name `backup`, or `None` when the
/// name does not follow the naming convention.
pub fn parse_backup_date(backup: &str) -> (r: Option<Timestamp>)
    ensures
        r == spec_parse_backup_date(backup@),
{
    proof {
        reveal_strlit("backup-");
        reveal_strlit(".tar.gz");
        assert("backup-"@ =~= seq!['b', 'a', 'c', 'k', 'u', 'p', '-']);
        assert(".tar.gz"@ =~= seq!['.', 't', 'a', 'r', '.', 'g', 'z']);
    }
    if !str_starts_with(backup, "backup-") || !str_ends_with(backup, ".tar.gz") {
        return None;
    }
    let len = backup.unicode_len();
    if len < 14 {
        return None;
    }
    let middle = backup.substring_char(7, len - 7);
    parse_timestamp_str(middle)
}


/// Formatting then parsing a well-formed timestamp gives it back exactly.
pub proof fn lemma_timestamp_round_trip(t: Timestamp)
    requires
        t.wf(),
    ensures
        spec_parse_timestamp(timestamp_chars(t)) == Some(t),
{
    let s = timestamp_chars(t);
    crate::text::lemma_four_digit_chars_val(t.year as int);
    crate::text::lemma_two_digit_chars_val(t.month as int);
    crate::text::lemma_two_digit_chars_val(t.day as int);
    crate::text::lemma_two_digit_chars_val(t.hour as int);
    crate::text::lemma_two_digit_chars_val(t.minute as int);
    crate::text::lemma_two_digit_chars_val(t.second as int);
    assert(s.len() == 19);
    assert(s.subrange(0, 4) =~= four_digit_chars(t.year as int));
    assert(s[4] == '-');
    assert(s.subrange(5, 7) =~= two_digit_chars(t.month as int));
    assert(s[7] == '-');
    assert(s.subrange(8, 10) =~= two_digit_chars(t.day as int));
    assert(s[10] == 'T');
    assert(s.subrange(11, 13) =~= two_digit_chars(t.hour as int));
    assert(s[13] == '-');
    assert(s.subrange(14, 16) =~= two_digit_chars(t.minute as int));
    assert(s[16] == '-');
    assert(s.subrange(17, 19) =~= two_digit_chars(t.second as int));
}

/// A string that parses as a timestamp is exactly the formatted form of
/// what it parses to.
pub proof fn lemma_parse_timestamp_format(s: Seq<char>, t: Timestamp)
    requires
        spec_parse_timestamp(s) == Some(t),
    ensures
        t.wf(),
        timestamp_chars(t) == s,
{
    crate::text::lemma_four_digit_chars_inv(s.subrange(0, 4));
    crate::text::lemma_two_digit_chars_inv(s.subrange(5, 7));
    crate::text::lemma_two_digit_chars_inv(s.subrange(8, 10));
    crate::text::lemma_two_digit_chars_inv(s.subrange(11, 13));
    crate::text::lemma_two_digit_chars_inv(s.subrange(14, 16));
    crate::text::lemma_two_digit_chars_inv(s.subrange(17, 19));
    assert(timestamp_chars(t) =~= s);
}

/// Formatting then parsing an artifact name gives the timestamp back.
pub proof fn lemma_artifact_name_round_trip(t: Timestamp)
    requires
        t.wf(),
    ensures
        spec_parse_backup_date(artifact_name_chars(t)) == Some(t),
{
    let s = artifact_name_chars(t);
    assert(s.len() == 33);
    assert(s.take(7) =~= seq!['b', 'a', 'c', 'k', 'u', 'p', '-']);
    assert(s.skip(26) =~= seq!['.', 't', 'a', 'r', '.', 'g', 'z']);
    assert(s.subrange(7, 26) =~= timestamp_chars(t));
    lemma_timestamp_round_trip(t);
}

/// A name that parses under the naming convention is exactly the name the
/// convention writes for the parsed timestamp.
pub proof fn lemma_parse_backup_date_format(s: Seq<char>, t: Timestamp)
    requires
        spec_parse_backup_date(s) == Some(t),
    ensures
        t.wf(),
        artifact_name_chars(t) == s,
{
    let mid = s.subrange(7, s.len() - 7);
    lemma_parse_timestamp_format(mid, t);
    assert(mid.len() == 19);
    assert(s.len() == 33);
    assert(s.take(7) == seq!['b', 'a', 'c', 'k', 'u', 'p', '-']);
    assert(s.skip(26) == seq!['.', 't', 'a', 'r', '.', 'g', 'z']);
    assert(artifact_name_chars(t) =~= s);
}

/// Two names that parse to the same timestamp are the same name.
pub proof fn lemma_parse_backup_date_injective(s1: Seq<char>, s2: Seq<char>)
    requires
        spec_parse_backup_date(s1) is Some,
        spec_parse_backup_date(s1) == spec_parse_backup_date(s2),
    ensures
        s1 == s2,
{
    let t = spec_parse_backup_date(s1).unwrap();
    lemma_parse_backup_date_format(s1, t);
    lemma_parse_backup_date_format(s2, t);
}

} // verus!
