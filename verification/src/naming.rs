//! What recordings are called: a directory for each session, a file for each user.

use vstd::prelude::*;

verus! {

// ---------------------------------------------------------------------------
// Decimal numbers
// ---------------------------------------------------------------------------

/// The character of a decimal digit.
pub open spec fn digit(d: nat) -> char {
    (48 + d) as char
}

/// `n` in decimal.
pub open spec fn decimal(n: nat) -> Seq<char>
    decreases n,
{
    if n < 10 {
        seq![digit(n)]
    } else {
        decimal(n / 10).push(digit(n % 10))
    }
}

/// `n` in decimal, filled up with zeros in front to at least `width` digits.
pub open spec fn padded(n: nat, width: nat) -> Seq<char>
    decreases width,
{
    if width <= 1 {
        decimal(n)
    } else {
        padded(n / 10, (width - 1) as nat).push(digit(n % 10))
    }
}

fn digit_text(d: u64) -> (text: &'static str)
    requires
        d < 10,
    ensures
        text@ == seq![digit(d as nat)],
{
    proof {
        reveal_strlit("0");
        reveal_strlit("1");
        reveal_strlit("2");
        reveal_strlit("3");
        reveal_strlit("4");
        reveal_strlit("5");
        reveal_strlit("6");
        reveal_strlit("7");
        reveal_strlit("8");
        reveal_strlit("9");
    }
    let text = match d {
        0 => "0",
        1 => "1",
        2 => "2",
        3 => "3",
        4 => "4",
        5 => "5",
        6 => "6",
        7 => "7",
        8 => "8",
        _ => "9",
    };
    assert(text@ =~= seq![digit(d as nat)]);
    text
}

fn decimal_text(n: u64) -> (text: String)
    ensures
        text@ == decimal(n as nat),
    decreases n,
{
    if n < 10 {
        digit_text(n).to_owned()
    } else {
        let mut text = decimal_text(n / 10);
        text.append(digit_text(n % 10));
        assert(text@ =~= decimal(n as nat));
        text
    }
}

// ---------------------------------------------------------------------------
// Session directories
// ---------------------------------------------------------------------------

/// A moment on a clock on the wall.
#[derive(Clone, Copy, Debug, PartialEq, Eq, Structural)]
pub struct LocalTime {
    pub year: i32,
    pub month: u32,
    pub day: u32,
    pub hour: u32,
    pub minute: u32,
    pub second: u32,
}

/// Whether a year of the Gregorian calendar has a 29 February.
pub open spec fn is_leap_year(year: int) -> bool {
    year % 4 == 0 && (year % 100 != 0 || year % 400 == 0)
}

/// The number of days in a month of the Gregorian calendar.
pub open spec fn days_in_month(year: int, month: int) -> int {
    if month == 2 {
        if is_leap_year(year) {
            29
        } else {
            28
        }
    } else if month == 4 || month == 6 || month == 9 || month == 11 {
        30
    } else {
        31
    }
}

/// A year as it stands in a directory's name: at least four digits, with a sign where four
/// digits are not enough.
pub open spec fn year_text(year: int) -> Seq<char> {
    if 0 <= year <= 9999 {
        padded(year as nat, 4)
    } else if year < 0 {
        seq!['-'] + padded((-year) as nat, 4)
    } else {
        seq!['+'] + padded(year as nat, 4)
    }
}

impl LocalTime {
    /// Whether there is such a moment, in the range of years that a date can have.
    pub open spec fn is_valid(self) -> bool {
        &&& -262143 <= self.year <= 262142
        &&& 1 <= self.month <= 12
        &&& 1 <= self.day <= days_in_month(self.year as int, self.month as int)
        &&& self.hour < 24
        &&& self.minute < 60
        &&& self.second < 60
    }

    /// Year, month, day, hour, minute and second, each in its digits.
    pub open spec fn dir_name(self) -> Seq<char> {
        year_text(self.year as int) + padded(self.month as nat, 2) + padded(self.day as nat, 2)
            + padded(self.hour as nat, 2) + padded(self.minute as nat, 2) + padded(
            self.second as nat,
            2,
        )
    }
}

/// `chrono::NaiveDateTime::format`, with the pattern of session directories: `%Y` is the year in
/// at least four digits, signed outside 0 to 9999, and `%m`, `%d`, `%H`, `%M` and `%S` are
/// month, day, hour, minute and second in two digits. The moment is made by
/// `chrono::NaiveDate::from_ymd_opt` and `chrono::NaiveDate::and_hms_opt`, which give `None`
/// exactly for a moment that does not exist or lies outside `chrono`'s years.
#[verifier::external_body]
fn format_time(time: &LocalTime, pattern: &str) -> (text: Option<String>)
    requires
        pattern@ == "%Y%m%d%H%M%S"@,
    ensures
        text is Some <==> time.is_valid(),
        text matches Some(text) ==> text@ == time.dir_name(),
{
    let date = chrono::NaiveDate::from_ymd_opt(time.year, time.month, time.day)?;
    let moment = date.and_hms_opt(time.hour, time.minute, time.second)?;
    Some(moment.format(pattern).to_string())
}

/// The name of the directory of a session that starts at `time`.
pub fn session_dir_name(time: &LocalTime) -> (name: Option<String>)
    ensures
        name is Some <==> time.is_valid(),
        name matches Some(name) ==> name@ == time.dir_name(),
{
    format_time(time, "%Y%m%d%H%M%S")
}

// ---------------------------------------------------------------------------
// Track files
// ---------------------------------------------------------------------------

/// The name that a user goes by: the one that was fetched, or else the user's number.
pub open spec fn display_name_of(user_id: u64, fetched: Option<Seq<char>>) -> Seq<char> {
    match fetched {
        Some(name) => name,
        None => decimal(user_id as nat),
    }
}

/// The name that a user goes by. `fetched` is what looking the user up gave.
pub fn display_name(user_id: u64, fetched: Option<String>) -> (name: String)
    ensures
        name@ == display_name_of(
            user_id,
            match fetched {
                Some(name) => Some(name@),
                None => None,
            },
        ),
        fetched matches Some(given) ==> name@ == given@,
{
    match fetched {
        Some(name) => name,
        None => decimal_text(user_id),
    }
}

/// The name of a user's file in the directory of a session.
pub fn track_file_name(name: &str) -> (file_name: String)
    ensures
        file_name@ == name@ + ".opus"@,
{
    let mut file_name = name.to_owned();
    file_name.append(".opus");
    file_name
}

// ---------------------------------------------------------------------------
// Laws
// ---------------------------------------------------------------------------

proof fn lemma_decimal_injective(a: nat, b: nat)
    requires
        decimal(a) == decimal(b),
    ensures
        a == b,
    decreases a,
{
    assert(decimal(a).last() == digit(a % 10));
    assert(decimal(b).last() == digit(b % 10));
    assert(decimal(a).drop_last() == decimal(b).drop_last());
    if a < 10 {
        if b >= 10 {
            lemma_decimal_not_empty(b / 10);
            assert(decimal(b).drop_last() == decimal(b / 10));
        }
    } else if b < 10 {
        lemma_decimal_not_empty(a / 10);
        assert(decimal(a).drop_last() == decimal(a / 10));
    } else {
        assert(decimal(a).drop_last() == decimal(a / 10));
        assert(decimal(b).drop_last() == decimal(b / 10));
        lemma_decimal_injective(a / 10, b / 10);
    }
}

proof fn lemma_decimal_not_empty(n: nat)
    ensures
        decimal(n).len() > 0,
{
}

proof fn lemma_decimal_digits(n: nat)
    ensures
        forall|i: int| 0 <= i < decimal(n).len() ==> '0' <= #[trigger] decimal(n)[i] <= '9',
    decreases n,
{
    if n >= 10 {
        lemma_decimal_digits(n / 10);
        assert forall|i: int| 0 <= i < decimal(n).len() implies '0' <= #[trigger] decimal(n)[i]
            <= '9' by {
            if i < decimal(n).len() - 1 {
                assert(decimal(n)[i] == decimal(n / 10)[i]);
            }
        }
    }
}

proof fn lemma_padded_digits(n: nat, width: nat)
    ensures
        padded(n, width).len() > 0,
        forall|i: int| 0 <= i < padded(n, width).len() ==> '0' <= #[trigger] padded(n, width)[i]
            <= '9',
    decreases width,
{
    if width <= 1 {
        lemma_decimal_digits(n);
        lemma_decimal_not_empty(n);
    } else {
        lemma_padded_digits(n / 10, (width - 1) as nat);
    }
}

proof fn lemma_padded_injective(a: nat, b: nat, width: nat)
    requires
        padded(a, width) == padded(b, width),
    ensures
        a == b,
    decreases width,
{
    if width <= 1 {
        lemma_decimal_injective(a, b);
    } else {
        let rest = (width - 1) as nat;
        assert(padded(a, width).last() == digit(a % 10));
        assert(padded(b, width).last() == digit(b % 10));
        assert(padded(a, width).drop_last() == padded(a / 10, rest));
        assert(padded(b, width).drop_last() == padded(b / 10, rest));
        lemma_padded_injective(a / 10, b / 10, rest);
    }
}

proof fn lemma_padded_two(n: nat)
    requires
        n < 100,
    ensures
        padded(n, 2).len() == 2,
{
    reveal_with_fuel(padded, 3);
}

proof fn lemma_padded_four(n: nat)
    requires
        n < 10000,
    ensures
        padded(n, 4).len() == 4,
{
    reveal_with_fuel(padded, 5);
}

proof fn lemma_year_text_injective(a: int, b: int)
    requires
        year_text(a) == year_text(b),
    ensures
        a == b,
{
    let (m, n) = (if a < 0 {
        (-a) as nat
    } else {
        a as nat
    }, if b < 0 {
        (-b) as nat
    } else {
        b as nat
    });
    lemma_padded_digits(m, 4);
    lemma_padded_digits(n, 4);
    let first = year_text(a)[0];
    assert(first == year_text(b)[0]);
    if !(0 <= a <= 9999) {
        assert(year_text(a).drop_first() == padded(m, 4));
    }
    if !(0 <= b <= 9999) {
        assert(year_text(b).drop_first() == padded(n, 4));
    }
    assert(padded(m, 4) == padded(n, 4));
    lemma_padded_injective(m, n, 4);
}

/// The number that decimal digits write.
pub open spec fn number_of(text: Seq<char>) -> nat
    decreases text.len(),
{
    if text.len() == 0 {
        0
    } else {
        10 * number_of(text.drop_last()) + (text.last() as nat - '0' as nat) as nat
    }
}

/// A number is written in digits alone, without a zero in front, and is read back from them. Its
/// last digit stands last: ten times a number and a digit is the number with that digit behind.
pub proof fn law_decimal_reads_back(n: nat, d: nat)
    requires
        d < 10,
    ensures
        decimal(n).len() > 0,
        forall|i: int| 0 <= i < decimal(n).len() ==> '0' <= #[trigger] decimal(n)[i] <= '9',
        decimal(n).len() > 1 ==> decimal(n)[0] != '0',
        number_of(decimal(n)) == n,
        decimal(d).len() == 1,
        decimal(d)[0] as nat == 48 + d,
        n > 0 ==> decimal(10 * n + d).drop_last() == decimal(n),
        n > 0 ==> decimal(10 * n + d).last() as nat == 48 + d,
    decreases n,
{
    lemma_decimal_digits(n);
    lemma_decimal_not_empty(n);
    if n < 10 {
        assert(decimal(n).drop_last() =~= Seq::empty());
        reveal_with_fuel(number_of, 2);
    } else {
        law_decimal_reads_back(n / 10, d);
        assert(decimal(n).drop_last() =~= decimal(n / 10));
        if decimal(n / 10).len() == 1 {
            if decimal(n / 10)[0] == '0' {
                assert(number_of(decimal(n / 10)) == 0) by {
                    assert(decimal(n / 10).drop_last() =~= Seq::empty());
                    reveal_with_fuel(number_of, 2);
                }
            }
        }
        assert(decimal(n)[0] == decimal(n / 10)[0]);
    }
    if n > 0 {
        assert((10 * n + d) / 10 == n && (10 * n + d) % 10 == d);
        assert(decimal(10 * n + d).drop_last() =~= decimal(n));
    }
}

proof fn lemma_padded_reads_back(n: nat, width: nat)
    ensures
        number_of(padded(n, width)) == n,
        padded(n, width).len() >= width,
    decreases width,
{
    if width <= 1 {
        law_decimal_reads_back(n, 0);
    } else {
        lemma_padded_reads_back(n / 10, (width - 1) as nat);
        assert(padded(n, width).drop_last() =~= padded(n / 10, (width - 1) as nat));
    }
}

proof fn lemma_two_digits(n: nat)
    requires
        n < 100,
    ensures
        padded(n, 2).len() == 2,
        padded(n, 2)[0] as nat == 48 + n / 10,
        padded(n, 2)[1] as nat == 48 + n % 10,
{
    reveal_with_fuel(padded, 3);
}

/// The name of a directory spells out the moment: the year, and then month, day, hour, minute and
/// second in two digits each, the tens first. A year outside 0 to 9999 has its sign in front.
pub proof fn law_dir_name_spells_the_moment(time: LocalTime)
    requires
        time.is_valid(),
    ensures
        ({
            let name = time.dir_name();
            let y = name.len() - 10;
            &&& y >= 4
            &&& 0 <= time.year <= 9999 ==> y == 4 && number_of(name.take(4)) == time.year
            &&& time.year < 0 ==> name[0] == '-' && y >= 5 && number_of(name.subrange(1, y))
                == -time.year
            &&& time.year > 9999 ==> name[0] == '+' && y >= 5 && number_of(name.subrange(1, y))
                == time.year
            &&& -9999 <= time.year < 0 ==> y == 5
            &&& !(-9999 <= time.year <= 9999) ==> name[1] != '0'
            &&& forall|i: int| 1 <= i < name.len() ==> '0' <= #[trigger] name[i] <= '9'
            &&& name[y] as nat == 48 + time.month / 10
            &&& name[y + 1] as nat == 48 + time.month % 10
            &&& name[y + 2] as nat == 48 + time.day / 10
            &&& name[y + 3] as nat == 48 + time.day % 10
            &&& name[y + 4] as nat == 48 + time.hour / 10
            &&& name[y + 5] as nat == 48 + time.hour % 10
            &&& name[y + 6] as nat == 48 + time.minute / 10
            &&& name[y + 7] as nat == 48 + time.minute % 10
            &&& name[y + 8] as nat == 48 + time.second / 10
            &&& name[y + 9] as nat == 48 + time.second % 10
        }),
{
    lemma_two_digits(time.month as nat);
    lemma_two_digits(time.day as nat);
    lemma_two_digits(time.hour as nat);
    lemma_two_digits(time.minute as nat);
    lemma_two_digits(time.second as nat);
    let name = time.dir_name();
    let y = name.len() - 10;
    assert(name.take(y) =~= year_text(time.year as int));
    let size = (if time.year < 0 {
        -time.year
    } else {
        time.year as int
    }) as nat;
    lemma_padded_reads_back(size, 4);
    lemma_padded_digits(size, 4);
    lemma_padded_digits(time.month as nat, 2);
    lemma_padded_digits(time.day as nat, 2);
    lemma_padded_digits(time.hour as nat, 2);
    lemma_padded_digits(time.minute as nat, 2);
    lemma_padded_digits(time.second as nat, 2);
    if 0 <= time.year <= 9999 {
        lemma_padded_four(size);
    } else {
        assert(name.subrange(1, y) =~= padded(size, 4));
        assert(name[1] == name.subrange(1, y)[0]);
        if size <= 9999 {
            lemma_padded_four(size);
        } else {
            reveal_with_fuel(padded, 4);
            law_decimal_reads_back(size / 10 / 10 / 10, 0);
            assert(padded(size, 4)[0] == decimal(size / 10 / 10 / 10)[0]);
            assert(size / 10 / 10 / 10 >= 10);
            lemma_decimal_not_empty(size / 10 / 10 / 10 / 10);
            assert(decimal(size / 10 / 10 / 10).len() > 1);
        }
    }
}

/// A moment exists exactly if its month is one of twelve, its day one that the month has in that
/// year, and its time one of a day. February has a day more in every fourth year, but of the years
/// that end a century only in every fourth one.
pub proof fn law_valid_moments(time: LocalTime)
    ensures
        time.is_valid() <==> {
            &&& -262143 <= time.year <= 262142
            &&& 1 <= time.month <= 12
            &&& 1 <= time.day <= 31
            &&& time.day == 31 ==> time.month != 2 && time.month != 4 && time.month != 6
                && time.month != 9 && time.month != 11
            &&& time.month == 2 ==> time.day <= 29
            &&& time.month == 2 && time.day == 29 ==> time.year as int % 4 == 0 && (time.year as int
                % 100 == 0 ==> time.year as int % 400 == 0)
            &&& time.hour <= 23
            &&& time.minute <= 59
            &&& time.second <= 59
        },
{
}

/// A user goes by the name that was fetched, letter by letter, and else by the user's number.
pub proof fn law_fetched_names_are_kept(user_id: u64, name: Seq<char>)
    ensures
        display_name_of(user_id, Some(name)) == name,
        number_of(display_name_of(user_id, None)) == user_id,
        display_name_of(user_id, None) == decimal(user_id as nat),
{
    law_decimal_reads_back(user_id as nat, 0);
}

/// Sessions that start at different moments go to different directories.
pub proof fn law_dir_names_differ(a: LocalTime, b: LocalTime)
    requires
        a.is_valid(),
        b.is_valid(),
        a != b,
    ensures
        a.dir_name() != b.dir_name(),
{
    if a.dir_name() == b.dir_name() {
        lemma_padded_two(a.month as nat);
        lemma_padded_two(a.day as nat);
        lemma_padded_two(a.hour as nat);
        lemma_padded_two(a.minute as nat);
        lemma_padded_two(a.second as nat);
        lemma_padded_two(b.month as nat);
        lemma_padded_two(b.day as nat);
        lemma_padded_two(b.hour as nat);
        lemma_padded_two(b.minute as nat);
        lemma_padded_two(b.second as nat);
        let name = a.dir_name();
        let y = name.len() - 10;
        assert(name.take(y) =~= year_text(a.year as int));
        assert(name.take(y) =~= year_text(b.year as int));
        lemma_year_text_injective(a.year as int, b.year as int);
        assert(name.subrange(y, y + 2) =~= padded(a.month as nat, 2));
        assert(name.subrange(y, y + 2) =~= padded(b.month as nat, 2));
        lemma_padded_injective(a.month as nat, b.month as nat, 2);
        assert(name.subrange(y + 2, y + 4) =~= padded(a.day as nat, 2));
        assert(name.subrange(y + 2, y + 4) =~= padded(b.day as nat, 2));
        lemma_padded_injective(a.day as nat, b.day as nat, 2);
        assert(name.subrange(y + 4, y + 6) =~= padded(a.hour as nat, 2));
        assert(name.subrange(y + 4, y + 6) =~= padded(b.hour as nat, 2));
        lemma_padded_injective(a.hour as nat, b.hour as nat, 2);
        assert(name.subrange(y + 6, y + 8) =~= padded(a.minute as nat, 2));
        assert(name.subrange(y + 6, y + 8) =~= padded(b.minute as nat, 2));
        lemma_padded_injective(a.minute as nat, b.minute as nat, 2);
        assert(name.subrange(y + 8, y + 10) =~= padded(a.second as nat, 2));
        assert(name.subrange(y + 8, y + 10) =~= padded(b.second as nat, 2));
        lemma_padded_injective(a.second as nat, b.second as nat, 2);
    }
}

/// In a year of four digits the name of a directory has fourteen characters, all of them digits.
pub proof fn law_dir_name_is_fourteen_digits(time: LocalTime)
    requires
        time.is_valid(),
        0 <= time.year <= 9999,
    ensures
        time.dir_name().len() == 14,
        forall|i: int| 0 <= i < 14 ==> '0' <= #[trigger] time.dir_name()[i] <= '9',
{
    lemma_padded_four(time.year as nat);
    lemma_padded_two(time.month as nat);
    lemma_padded_two(time.day as nat);
    lemma_padded_two(time.hour as nat);
    lemma_padded_two(time.minute as nat);
    lemma_padded_two(time.second as nat);
    lemma_padded_digits(time.year as nat, 4);
    lemma_padded_digits(time.month as nat, 2);
    lemma_padded_digits(time.day as nat, 2);
    lemma_padded_digits(time.hour as nat, 2);
    lemma_padded_digits(time.minute as nat, 2);
    lemma_padded_digits(time.second as nat, 2);
}

/// Users that go by their numbers have files of their own.
pub proof fn law_numbered_users_differ(a: u64, b: u64)
    requires
        a != b,
    ensures
        display_name_of(a, None) + ".opus"@ != display_name_of(b, None) + ".opus"@,
{
    let suffix = ".opus"@;
    if decimal(a as nat) + suffix == decimal(b as nat) + suffix {
        let file_name = decimal(a as nat) + suffix;
        assert(file_name.take(file_name.len() - suffix.len()) =~= decimal(a as nat));
        assert(file_name.take(file_name.len() - suffix.len()) =~= decimal(b as nat));
        lemma_decimal_injective(a as nat, b as nat);
    }
}

} // verus!
