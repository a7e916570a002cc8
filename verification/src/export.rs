//! Names and times for files that are written to the host.

use crate::direntry::{DirEntry, DirEntryModel};
use crate::path::{push_name, with_name};
use crate::text::{components, from_chars, split_path, texts, to_chars};
use vstd::prelude::*;

verus! {

/// Whether a character cannot stand in a file name on every host.
pub open spec fn is_forbidden(c: char) -> bool {
    ||| c == '\\'
    ||| c == '/'
    ||| c == ':'
    ||| c == '*'
    ||| c == '?'
    ||| c == '"'
    ||| c == '<'
    ||| c == '>'
    ||| c == '|'
    ||| (c as u32) < 0x20
}

/// A name with an underscore for each character that is forbidden.
pub open spec fn replaced(name: Seq<char>) -> Seq<char> {
    Seq::new(
        name.len(),
        |i: int|
            if is_forbidden(name[i]) {
                '_'
            } else {
                name[i]
            },
    )
}

/// A name without the dots and spaces at its end.
pub open spec fn without_tail(name: Seq<char>) -> Seq<char>
    decreases name.len(),
{
    if name.len() > 0 && (name.last() == '.' || name.last() == ' ') {
        without_tail(name.drop_last())
    } else {
        name
    }
}

/// A name that is safe on every host.
pub open spec fn safe_name(name: Seq<char>) -> Seq<char> {
    let kept = without_tail(replaced(name));
    if kept.len() == 0 {
        seq!['_']
    } else {
        kept
    }
}

/// The path of a file on the host: the root, followed by the safe forms of the
/// first `n` components.
pub open spec fn safe_path(root: Seq<char>, parts: Seq<Seq<char>>, n: int) -> Seq<char>
    decreases n,
{
    if n <= 0 {
        root
    } else {
        with_name(safe_path(root, parts, n - 1), safe_name(parts[n - 1]))
    }
}

/// Makes a name safe for every host: reserved and control characters become
/// underscores, dots and spaces at the end are dropped, and a name of which
/// nothing is left is an underscore.
pub fn sanitize_filename(name: &str) -> (r: String)
    ensures
        r@ == safe_name(name@),
{
    let chars: Vec<char> = to_chars(name);
    let mut out: Vec<char> = Vec::new();
    let mut i: usize = 0;
    while i < chars.len()
        invariant
            i <= chars@.len(),
            out@ =~= replaced(chars@.take(i as int)),
        decreases chars@.len() - i,
    {
        let c: char = chars[i];
        if c == '\\' || c == '/' || c == ':' || c == '*' || c == '?' || c == '"' || c == '<' || c
            == '>' || c == '|' || (c as u32) < 0x20 {
            out.push('_');
        } else {
            out.push(c);
        }
        i = i + 1;
    }
    assert(chars@.take(i as int) =~= chars@);
    while out.len() > 0 && (out[out.len() - 1] == '.' || out[out.len() - 1] == ' ')
        invariant
            without_tail(out@) == without_tail(replaced(name@)),
        decreases out@.len(),
    {
        let ghost before = out@;
        out.pop();
        assert(out@ == before.drop_last());
    }
    if out.len() == 0 {
        out.push('_');
        assert(out@ =~= seq!['_']);
    }
    from_chars(out.as_slice())
}

/// The host path of a file under `host_root`, from its path on the disk.
pub fn sanitize_path(host_root: &str, x68k_path: &str) -> (r: String)
    ensures
        r@ == safe_path(
            host_root@,
            components(x68k_path@),
            components(x68k_path@).len() as int,
        ),
{
    let parts: Vec<String> = split_path(x68k_path);
    let mut out: String = host_root.to_owned();
    let mut i: usize = 0;
    while i < parts.len()
        invariant
            i <= parts@.len(),
            texts(parts@) == components(x68k_path@),
            out@ == safe_path(host_root@, components(x68k_path@), i as int),
        decreases parts@.len() - i,
    {
        let name: String = sanitize_filename(parts[i].as_str());
        assert(components(x68k_path@)[i as int] == parts@[i as int]@);
        push_name(&mut out, name.as_str());
        i = i + 1;
    }
    assert(components(x68k_path@).len() == parts@.len());
    out
}

proof fn without_tail_is_prefix(name: Seq<char>)
    ensures
        without_tail(name).len() <= name.len(),
        forall|i: int| 0 <= i < without_tail(name).len() ==> without_tail(name)[i] == name[i],
        without_tail(name).len() > 0 ==> without_tail(name).last() != '.' && without_tail(
            name,
        ).last() != ' ',
        without_tail(without_tail(name)) == without_tail(name),
    decreases name.len(),
{
    if name.len() > 0 && (name.last() == '.' || name.last() == ' ') {
        without_tail_is_prefix(name.drop_last());
        assert forall|i: int| 0 <= i < without_tail(name).len() implies without_tail(name)[i]
            == name[i] by {
            assert(without_tail(name.drop_last())[i] == name.drop_last()[i]);
        }
    }
}

/// A safe name is not empty, holds no forbidden character, ends in neither a dot
/// nor a space, and is not changed when it is made safe again. So it is never
/// `.` or `..`, and a path made of safe names stays below its root.
pub proof fn safe_names_are_safe(name: Seq<char>)
    ensures
        safe_name(name).len() > 0,
        forall|i: int| 0 <= i < safe_name(name).len() ==> !is_forbidden(#[trigger] safe_name(name)[i]),
        safe_name(name).last() != '.',
        safe_name(name).last() != ' ',
        safe_name(safe_name(name)) == safe_name(name),
        safe_name(name) != "."@,
        safe_name(name) != ".."@,
{
    without_tail_is_prefix(replaced(name));
    let safe = safe_name(name);
    assert forall|i: int| 0 <= i < safe.len() implies !is_forbidden(#[trigger] safe[i]) by {
        if without_tail(replaced(name)).len() > 0 {
            assert(safe[i] == replaced(name)[i]);
        }
    }
    assert(replaced(safe) =~= safe);
    reveal_strlit(".");
    reveal_strlit("..");
    assert("."@.last() == '.');
    assert(".."@.last() == '.');
}

/// A name that is safe already stays as it is.
pub proof fn safe_names_are_kept(name: Seq<char>)
    requires
        name.len() > 0,
        forall|i: int| 0 <= i < name.len() ==> !is_forbidden(#[trigger] name[i]),
        name.last() != '.',
        name.last() != ' ',
    ensures
        safe_name(name) == name,
{
    assert(replaced(name) =~= name);
}

/// A moment, in seconds and nanoseconds since the beginning of 1970.
#[derive(Clone, Copy, Debug, PartialEq, Eq, Structural)]
pub struct FileTime {
    pub seconds: i64,
    pub nanoseconds: u32,
}

impl FileTime {
    /// The moment that lies so many seconds after the beginning of 1970.
    pub fn from_unix_time(seconds: i64, nanoseconds: u32) -> (r: Self)
        ensures
            r == (FileTime { seconds, nanoseconds }),
    {
        FileTime { seconds, nanoseconds }
    }

    /// The whole seconds since the beginning of 1970.
    pub fn unix_seconds(&self) -> (r: i64)
        ensures
            r == self.seconds,
    {
        self.seconds
    }
}

/// Whether a year has 366 days in the Gregorian calendar.
pub open spec fn is_leap(y: int) -> bool {
    y % 4 == 0 && (y % 100 != 0 || y % 400 == 0)
}

/// The number of days of a year.
pub open spec fn year_days(y: int) -> int {
    if is_leap(y) {
        366
    } else {
        365
    }
}

/// The number of days of a month.
pub open spec fn month_days(y: int, m: int) -> int {
    if m == 2 {
        if is_leap(y) {
            29
        } else {
            28
        }
    } else if m == 4 || m == 6 || m == 9 || m == 11 {
        30
    } else {
        31
    }
}

/// The days from the beginning of 1970 to the beginning of a year.
pub open spec fn days_to_year(y: int) -> int
    decreases
            (if y > 1970 {
                y - 1970
            } else {
                1970 - y
            }),
{
    if y > 1970 {
        days_to_year(y - 1) + year_days(y - 1)
    } else if y < 1970 {
        days_to_year(y + 1) - year_days(y)
    } else {
        0
    }
}

/// The days from the beginning of a year to the beginning of a month.
pub open spec fn days_to_month(y: int, m: int) -> int
    decreases m,
{
    if m <= 1 {
        0
    } else {
        days_to_month(y, m - 1) + month_days(y, m - 1)
    }
}

/// The days from the beginning of 1970 to a day.
pub open spec fn epoch_day(y: int, m: int, d: int) -> int {
    days_to_year(y) + days_to_month(y, m) + d - 1
}

/// The seconds from the beginning of 1970 to a moment.
pub open spec fn epoch_second(y: int, mo: int, d: int, h: int, mi: int, s: int) -> int {
    epoch_day(y, mo, d) * 86400 + h * 3600 + mi * 60 + s
}

/// The moment of an entry, where its month and day make sense.
pub open spec fn entry_moment(e: DirEntryModel) -> Option<int> {
    let year = 1980 + e.date_raw as int / 0x200;
    let month = e.date_raw as int / 0x20 % 0x10;
    let day = e.date_raw as int % 0x20;
    if 1 <= month <= 12 && 1 <= day {
        Some(
            epoch_second(
                year,
                month,
                day,
                e.time_raw as int / 0x800,
                e.time_raw as int / 0x20 % 0x40,
                2 * (e.time_raw as int % 0x20),
            ),
        )
    } else {
        None
    }
}

/// The leap years up to and including year `n`, counted from year 0.
spec fn leaps_to(n: int) -> int {
    n / 4 - n / 100 + n / 400
}

proof fn quotient_step(n: int, k: int)
    requires
        k > 1,
    ensures
        n / k == (n - 1) / k + (if n % k == 0 {
            1int
        } else {
            0int
        }),
{
    let q = n / k;
    let r = n % k;
    vstd::arithmetic::div_mod::lemma_fundamental_div_mod(n, k);
    if r == 0 {
        assert((q - 1) * k == k * q - k) by (nonlinear_arith);
        vstd::arithmetic::div_mod::lemma_fundamental_div_mod_converse(n - 1, k, q - 1, k - 1);
    } else {
        assert(q * k == k * q) by (nonlinear_arith);
        vstd::arithmetic::div_mod::lemma_fundamental_div_mod_converse(n - 1, k, q, r - 1);
    }
}

proof fn leaps_step(n: int)
    ensures
        leaps_to(n) == leaps_to(n - 1) + (if is_leap(n) {
            1int
        } else {
            0int
        }),
{
    quotient_step(n, 4);
    quotient_step(n, 100);
    quotient_step(n, 400);
    assert(n % 400 == 0 ==> n % 100 == 0);
    assert(n % 100 == 0 ==> n % 4 == 0);
}

proof fn days_to_year_formula(y: int)
    ensures
        days_to_year(y) == 365 * (y - 1970) + leaps_to(y - 1) - 477,
    decreases
            (if y > 1970 {
                y - 1970
            } else {
                1970 - y
            }),
{
    if y > 1970 {
        days_to_year_formula(y - 1);
        leaps_step(y - 1);
    } else if y < 1970 {
        days_to_year_formula(y + 1);
        leaps_step(y);
    }
}

/// Twelve months make a year.
pub proof fn months_fill_the_year(y: int)
    ensures
        days_to_month(y, 12) + month_days(y, 12) == year_days(y),
{
    reveal_with_fuel(days_to_month, 13);
}

/// The day after the last one of a month is the first of the next month, and the
/// day after the last one of a year is the first of the next year.
pub proof fn days_follow_each_other(y: int, m: int)
    requires
        1 <= m <= 12,
    ensures
        m < 12 ==> epoch_day(y, m, month_days(y, m)) + 1 == epoch_day(y, m + 1, 1),
        epoch_day(y, 12, month_days(y, 12)) + 1 == epoch_day(y + 1, 1, 1),
        epoch_day(1970, 1, 1) == 0,
{
    months_fill_the_year(y);
    days_to_year_formula(y);
    days_to_year_formula(y + 1);
    leaps_step(y);
}

/// The moment of the last change of an entry; none where the date makes no sense.
pub fn entry_to_filetime(entry: &DirEntry) -> (r: Option<FileTime>)
    ensures
        match r {
            Some(t) => entry_moment(entry@) == Some(t.seconds as int) && t.nanoseconds == 0,
            None => entry_moment(entry@) is None,
        },
{
    let (y, mo, d) = entry.date();
    let (h, mi, s) = entry.time();
    if y < 1980 || mo == 0 || d == 0 || mo > 12 || d > 31 {
        return None;
    }
    let seconds: i64 = naive_to_epoch(
        y as i32,
        mo as u32,
        d as u32,
        h as u32,
        mi as u32,
        s as u32,
    );
    Some(FileTime::from_unix_time(seconds, 0))
}

/// The seconds from the beginning of 1970 to a moment.
pub fn naive_to_epoch(y: i32, mo: u32, d: u32, h: u32, mi: u32, s: u32) -> (r: i64)
    requires
        1 <= mo <= 12,
    ensures
        r == epoch_second(y as int, mo as int, d as int, h as int, mi as int, s as int),
{
    let days: i64 = days_from_civil(y, mo, d);
    days * 86400 + (h as i64) * 3600 + (mi as i64) * 60 + s as i64
}

proof fn leaps_in_eras(era: int, yoe: int)
    requires
        0 <= yoe < 400,
    ensures
        leaps_to(400 * era + yoe) == 97 * era + yoe / 4 - yoe / 100,
{
    let n = 400 * era + yoe;
    assert(n / 4 == 100 * era + yoe / 4);
    assert(n / 100 == 4 * era + yoe / 100);
    assert(n / 400 == era);
}

proof fn march_based_months(y: int, m: int, mp: int)
    requires
        1 <= m <= 12,
        mp == if m > 2 {
            m - 3
        } else {
            m + 9
        },
    ensures
        m > 2 ==> days_to_month(y, m) == (153 * mp + 2) / 5 + 59 + (if is_leap(y) {
            1int
        } else {
            0int
        }),
        m <= 2 ==> days_to_month(y, m) == (153 * mp + 2) / 5 - 306,
{
    reveal_with_fuel(days_to_month, 13);
    assert(m == 1 || m == 2 || m == 3 || m == 4 || m == 5 || m == 6 || m == 7 || m == 8 || m == 9
        || m == 10 || m == 11 || m == 12);
}

/// The days from the beginning of 1970 to a day. Years are counted from March on,
/// in eras of 400 years.
pub fn days_from_civil(y: i32, m: u32, d: u32) -> (r: i64)
    requires
        1 <= m <= 12,
    ensures
        r == epoch_day(y as int, m as int, d as int),
        -800_000_000_000 <= r <= 800_000_000_000,
{
    let year: i64 = if m <= 2 {
        y as i64 - 1
    } else {
        y as i64
    };
    let era: i64 = if year >= 0 {
        year / 400
    } else {
        -((399 - year) / 400)
    };
    let yoe: i64 = year - era * 400;
    let mp: i64 = if m > 2 {
        m as i64 - 3
    } else {
        m as i64 + 9
    };
    assert(0 <= yoe < 400);
    let doy: i64 = (153 * mp + 2) / 5 + d as i64 - 1;
    let doe: i64 = yoe * 365 + yoe / 4 - yoe / 100 + doy;
    proof {
        days_to_year_formula(y as int);
        leaps_step(y as int);
        leaps_in_eras(era as int, yoe as int);
        march_based_months(y as int, m as int, mp as int);
    }
    era * 146097 + doe - 719468
}

} // verus!
