//! Text utilities: namespace splitting, digit masking, and timestamp
//! normalization for converted audit rows.

use vstd::prelude::*;

verus! {

/// The character is an ASCII digit.
pub open spec fn is_digit_v(c: char) -> bool {
    48 <= c as int <= 57
}

/// The digit's value.
pub open spec fn digit_v(c: char) -> int {
    c as int - 48
}

/// Tests one character for being an ASCII digit.
pub fn is_digit(c: char) -> (r: bool)
    ensures
        r == is_digit_v(c),
{
    let u = c as u32;
    48 <= u && u <= 57
}

/// How often the character occurs.
pub open spec fn count_char(s: Seq<char>, c: char) -> int
    decreases s.len(),
{
    if s.len() == 0 {
        0
    } else {
        count_char(s.drop_last(), c) + if s.last() == c {
            1int
        } else {
            0int
        }
    }
}

/// The position of the first occurrence of the character, meaningful
/// when one occurs.
pub open spec fn first_pos(s: Seq<char>, c: char) -> int
    decreases s.len(),
{
    if s.len() == 0 {
        0
    } else if s[0] == c {
        0
    } else {
        1 + first_pos(s.drop_first(), c)
    }
}

proof fn lemma_first_pos_found(s: Seq<char>, c: char, p: int)
    requires
        0 <= p < s.len(),
        s[p] == c,
        forall|k: int| 0 <= k < p ==> s[k] != c,
    ensures
        first_pos(s, c) == p,
    decreases p,
{
    if p > 0 {
        assert(forall|k: int| 0 <= k < p - 1 ==> s.drop_first()[k] != c);
        assert(s.drop_first()[p - 1] == c);
        lemma_first_pos_found(s.drop_first(), c, p - 1);
    }
}

/// Splits a namespace into database and collection: a namespace holding
/// exactly one dot splits there; anything else yields two empty names.
pub fn get_db_coll(ns: &str) -> (r: (String, String))
    ensures
        count_char(ns@, '.') == 1 ==> r.0@ == ns@.take(first_pos(ns@, '.')) && r.1@ == ns@.skip(
            first_pos(ns@, '.') + 1,
        ),
        count_char(ns@, '.') != 1 ==> r.0@ == Seq::<char>::empty() && r.1@
            == Seq::<char>::empty(),
{
    let n = ns.unicode_len();
    let mut i: usize = 0;
    let mut dots: usize = 0;
    let mut dot_at: usize = 0;
    while i < n
        invariant
            0 <= i <= n,
            n == ns@.len(),
            dots == count_char(ns@.take(i as int), '.'),
            dots <= i,
            dots >= 1 ==> dot_at < i && ns@[dot_at as int] == '.' && (forall|k: int|
                0 <= k < dot_at ==> ns@[k] != '.'),
            dots == 0 ==> forall|k: int| 0 <= k < i ==> ns@[k] != '.',
        decreases n - i,
    {
        proof {
            assert(ns@.take(i + 1).drop_last() =~= ns@.take(i as int));
            assert(ns@.take(i + 1).last() == ns@[i as int]);
        }
        let c = ns.get_char(i);
        if c == '.' {
            if dots == 0 {
                dot_at = i;
            }
            dots = dots + 1;
        }
        i = i + 1;
    }
    proof {
        assert(ns@.take(n as int) =~= ns@);
    }
    if dots == 1 {
        proof {
            lemma_first_pos_found(ns@, '.', dot_at as int);
        }
        let left = ns.substring_char(0, dot_at).to_owned();
        let right = ns.substring_char(dot_at + 1, n).to_owned();
        proof {
            assert(ns@.subrange(0, dot_at as int) =~= ns@.take(dot_at as int));
            assert(ns@.subrange(dot_at + 1, n as int) =~= ns@.skip(dot_at + 1));
        }
        (left, right)
    } else {
        (String::new(), String::new())
    }
}

/// Digit runs masked: each maximal run of ASCII digits reads `[n]`.
pub open spec fn masked_from(s: Seq<char>, in_run: bool) -> Seq<char>
    decreases s.len(),
{
    if s.len() == 0 {
        Seq::empty()
    } else if is_digit_v(s[0]) {
        (if in_run {
            Seq::<char>::empty()
        } else {
            "[n]"@
        }) + masked_from(s.drop_first(), true)
    } else {
        seq![s[0]] + masked_from(s.drop_first(), false)
    }
}

/// The text with every maximal digit run replaced by `[n]`.
pub open spec fn replace_number_v(s: Seq<char>) -> Seq<char> {
    masked_from(s, false)
}

/// Replaces every maximal run of ASCII digits with `[n]`.
pub fn replace_number(s: &str) -> (r: String)
    ensures
        r@ == replace_number_v(s@),
{
    let n = s.unicode_len();
    let mut out = String::new();
    let mut in_run: bool = false;
    let mut i: usize = 0;
    proof {
        assert(s@.skip(0) =~= s@);
        assert(out@ + masked_from(s@, false) =~= replace_number_v(s@));
    }
    while i < n
        invariant
            0 <= i <= n,
            n == s@.len(),
            replace_number_v(s@) =~= out@ + masked_from(s@.skip(i as int), in_run),
        decreases n - i,
    {
        proof {
            assert(s@.skip(i as int).drop_first() =~= s@.skip(i + 1));
            assert(s@.skip(i as int)[0] == s@[i as int]);
        }
        let c = s.get_char(i);
        if is_digit(c) {
            if !in_run {
                out.append("[n]");
                in_run = true;
            }
        } else {
            let piece = s.substring_char(i, i + 1);
            proof {
                assert(piece@ =~= seq![s@[i as int]]);
            }
            out.append(piece);
            in_run = false;
        }
        i = i + 1;
    }
    proof {
        assert(s@.skip(n as int) =~= Seq::<char>::empty());
        assert(replace_number_v(s@) =~= out@);
    }
    out
}

/// A capture-shaped timestamp stands at the front: four year digits, a
/// dash, two month digits, a dash, two day digits, a `T`, two hour
/// digits, a colon, two minute digits, a colon, two second digits, any
/// one character, three fraction digits, a sign, and four offset digits.
pub open spec fn date_shape0(s: Seq<char>) -> bool {
    &&& s.len() >= 28
    &&& is_digit_v(s[0]) && is_digit_v(s[1]) && is_digit_v(s[2]) && is_digit_v(s[3])
    &&& s[4] == '-'
    &&& is_digit_v(s[5]) && is_digit_v(s[6])
    &&& s[7] == '-'
    &&& is_digit_v(s[8]) && is_digit_v(s[9])
    &&& s[10] == 'T'
    &&& is_digit_v(s[11]) && is_digit_v(s[12])
    &&& s[13] == ':'
    &&& is_digit_v(s[14]) && is_digit_v(s[15])
    &&& s[16] == ':'
    &&& is_digit_v(s[17]) && is_digit_v(s[18])
    &&& is_digit_v(s[20]) && is_digit_v(s[21]) && is_digit_v(s[22])
    &&& (s[23] == '+' || s[23] == '-')
    &&& is_digit_v(s[24]) && is_digit_v(s[25]) && is_digit_v(s[26]) && is_digit_v(s[27])
}

/// The year is a leap year.
pub open spec fn is_leap_v(y: int) -> bool {
    y % 4 == 0 && (y % 100 != 0 || y % 400 == 0)
}

/// Days in a month of a year.
pub open spec fn days_in_month_v(y: int, m: int) -> int {
    if m == 2 {
        if is_leap_v(y) {
            29
        } else {
            28
        }
    } else if m == 4 || m == 6 || m == 9 || m == 11 {
        30
    } else {
        31
    }
}

/// The calendar fields a capture-shaped timestamp carries make a real
/// date and time of day.
pub open spec fn date_valid0(s: Seq<char>) -> bool {
    let y = digit_v(s[0]) * 1000 + digit_v(s[1]) * 100 + digit_v(s[2]) * 10 + digit_v(s[3]);
    let mo = digit_v(s[5]) * 10 + digit_v(s[6]);
    let d = digit_v(s[8]) * 10 + digit_v(s[9]);
    let h = digit_v(s[11]) * 10 + digit_v(s[12]);
    let mi = digit_v(s[14]) * 10 + digit_v(s[15]);
    let sec = digit_v(s[17]) * 10 + digit_v(s[18]);
    &&& 1 <= mo <= 12
    &&& 1 <= d <= days_in_month_v(y, mo)
    &&& h <= 23
    &&& mi <= 59
    &&& sec <= 59
}

/// Tests whether a capture-shaped timestamp stands at position `p`.
fn date_shape_check(s: &str, p: usize) -> (r: bool)
    requires
        p <= usize::MAX - 28,
        p + 28 <= s@.len(),
    ensures
        r == date_shape0(s@.skip(p as int)),
{
    let ghost t = s@.skip(p as int);
    proof {
        assert(forall|k: int| 0 <= k < 28 ==> t[k] == s@[p + k]);
    }
    let r = is_digit(s.get_char(p)) && is_digit(s.get_char(p + 1)) && is_digit(s.get_char(p + 2))
        && is_digit(s.get_char(p + 3)) && s.get_char(p + 4) == '-' && is_digit(s.get_char(p + 5))
        && is_digit(s.get_char(p + 6)) && s.get_char(p + 7) == '-' && is_digit(s.get_char(p + 8))
        && is_digit(s.get_char(p + 9)) && s.get_char(p + 10) == 'T' && is_digit(
        s.get_char(p + 11),
    ) && is_digit(s.get_char(p + 12)) && s.get_char(p + 13) == ':' && is_digit(s.get_char(p + 14))
        && is_digit(s.get_char(p + 15)) && s.get_char(p + 16) == ':' && is_digit(
        s.get_char(p + 17),
    ) && is_digit(s.get_char(p + 18)) && is_digit(s.get_char(p + 20)) && is_digit(
        s.get_char(p + 21),
    ) && is_digit(s.get_char(p + 22)) && (s.get_char(p + 23) == '+' || s.get_char(p + 23) == '-')
        && is_digit(s.get_char(p + 24)) && is_digit(s.get_char(p + 25)) && is_digit(
        s.get_char(p + 26),
    ) && is_digit(s.get_char(p + 27));
    r
}

/// Tests whether the capture-shaped timestamp at position `p` carries a
/// real date and time of day.
fn date_valid_check(s: &str, p: usize) -> (r: bool)
    requires
        p <= usize::MAX - 28,
        p + 28 <= s@.len(),
        date_shape0(s@.skip(p as int)),
    ensures
        r == date_valid0(s@.skip(p as int)),
{
    let ghost t = s@.skip(p as int);
    proof {
        assert(forall|k: int| 0 <= k < 28 ==> t[k] == s@[p + k]);
    }
    let y: u32 = (s.get_char(p) as u32 - 48) * 1000 + (s.get_char(p + 1) as u32 - 48) * 100 + (
    s.get_char(p + 2) as u32 - 48) * 10 + (s.get_char(p + 3) as u32 - 48);
    let mo: u32 = (s.get_char(p + 5) as u32 - 48) * 10 + (s.get_char(p + 6) as u32 - 48);
    let d: u32 = (s.get_char(p + 8) as u32 - 48) * 10 + (s.get_char(p + 9) as u32 - 48);
    let h: u32 = (s.get_char(p + 11) as u32 - 48) * 10 + (s.get_char(p + 12) as u32 - 48);
    let mi: u32 = (s.get_char(p + 14) as u32 - 48) * 10 + (s.get_char(p + 15) as u32 - 48);
    let sec: u32 = (s.get_char(p + 17) as u32 - 48) * 10 + (s.get_char(p + 18) as u32 - 48);
    let leap: bool = y % 4 == 0 && (y % 100 != 0 || y % 400 == 0);
    let dim: u32 = if mo == 2 {
        if leap {
            29
        } else {
            28
        }
    } else if mo == 4 || mo == 6 || mo == 9 || mo == 11 {
        30
    } else {
        31
    };
    1 <= mo && mo <= 12 && 1 <= d && d <= dim && h <= 23 && mi <= 59 && sec <= 59
}

/// The normalized form of one capture-shaped timestamp: its date and
/// time kept as written, the fraction zeroed, the offset dropped for
/// the zone marker.
pub open spec fn normalized0(s: Seq<char>) -> Seq<char> {
    s.take(19) + ".000Z"@
}

/// The text with every capture-shaped timestamp normalized, scanning
/// left to right without overlap.
pub open spec fn date_replace_v(s: Seq<char>) -> Seq<char>
    decreases s.len(),
{
    if s.len() == 0 {
        Seq::empty()
    } else if date_shape0(s) {
        normalized0(s) + date_replace_v(s.skip(28))
    } else {
        seq![s[0]] + date_replace_v(s.drop_first())
    }
}

/// Every capture-shaped timestamp the left-to-right scan takes carries a
/// real date and time of day.
pub open spec fn all_dates_valid(s: Seq<char>) -> bool
    decreases s.len(),
{
    if s.len() == 0 {
        true
    } else if date_shape0(s) {
        date_valid0(s) && all_dates_valid(s.skip(28))
    } else {
        all_dates_valid(s.drop_first())
    }
}

/// Normalizes every capture-shaped timestamp in the text: the date and
/// time stay as written, the fraction reads `.000` and the offset
/// becomes `Z`. The log being converted is assumed to carry only real
/// timestamps, so every match must be a real date and time of day.
pub fn match_date_replace(input_date: &str) -> (r: String)
    requires
        all_dates_valid(input_date@),
    ensures
        r@ == date_replace_v(input_date@),
{
    let n = input_date.unicode_len();
    let mut out = String::new();
    let mut i: usize = 0;
    proof {
        assert(input_date@.skip(0) =~= input_date@);
        assert(out@ + date_replace_v(input_date@) =~= date_replace_v(input_date@));
    }
    while i < n
        invariant
            0 <= i <= n,
            n == input_date@.len(),
            all_dates_valid(input_date@.skip(i as int)),
            date_replace_v(input_date@) =~= out@ + date_replace_v(input_date@.skip(i as int)),
        decreases n - i,
    {
        proof {
            assert(input_date@.skip(i as int).drop_first() =~= input_date@.skip(i + 1));
            assert(input_date@.skip(i as int)[0] == input_date@[i as int]);
        }
        let matched: bool = if n >= 28 && i <= n - 28 {
            date_shape_check(input_date, i)
        } else {
            proof {
                assert(input_date@.skip(i as int).len() < 28);
                assert(!date_shape0(input_date@.skip(i as int)));
            }
            false
        };
        if matched {
            let head = input_date.substring_char(i, i + 19);
            proof {
                assert(head@ =~= input_date@.skip(i as int).take(19));
            }
            out.append(head);
            out.append(".000Z");
            proof {
                assert(input_date@.skip(i as int).skip(28) =~= input_date@.skip(i + 28));
            }
            i = i + 28;
        } else {
            let piece = input_date.substring_char(i, i + 1);
            proof {
                assert(piece@ =~= seq![input_date@[i as int]]);
            }
            out.append(piece);
            i = i + 1;
        }
    }
    proof {
        assert(input_date@.skip(n as int) =~= Seq::<char>::empty());
        assert(date_replace_v(input_date@) =~= out@);
    }
    out
}

/// The position of the first capture-shaped timestamp, or the length
/// when none occurs.
pub open spec fn first_shape(s: Seq<char>) -> int
    decreases s.len(),
{
    if s.len() == 0 {
        0
    } else if date_shape0(s) {
        0
    } else {
        1 + first_shape(s.drop_first())
    }
}

proof fn lemma_first_shape_found(s: Seq<char>, p: int)
    requires
        0 <= p <= s.len(),
        date_shape0(s.skip(p)),
        forall|k: int| 0 <= k < p ==> !date_shape0(s.skip(k)),
    ensures
        first_shape(s) == p,
    decreases p,
{
    assert(s.skip(0) =~= s);
    if p > 0 {
        assert(!date_shape0(s));
        assert(s.drop_first() =~= s.skip(1));
        assert forall|k: int| 0 <= k < p - 1 implies !date_shape0(s.skip(1).skip(k)) by {
            assert(s.skip(1).skip(k) =~= s.skip(k + 1));
        }
        assert(s.skip(1).skip(p - 1) =~= s.skip(p));
        lemma_first_shape_found(s.skip(1), p - 1);
    }
}

proof fn lemma_first_shape_absent(s: Seq<char>)
    requires
        forall|k: int| 0 <= k <= s.len() ==> !date_shape0(s.skip(k)),
    ensures
        first_shape(s) == s.len(),
    decreases s.len(),
{
    assert(s.skip(0) =~= s);
    if s.len() > 0 {
        assert(s.drop_first() =~= s.skip(1));
        assert forall|k: int| 0 <= k <= s.skip(1).len() implies !date_shape0(s.skip(1).skip(k)) by {
            assert(s.skip(1).skip(k) =~= s.skip(k + 1));
        }
        lemma_first_shape_absent(s.skip(1));
    }
}

/// Normalizes the first capture-shaped timestamp in the text and
/// returns just its normalized form; a text holding none comes back
/// unchanged. The timestamp must carry a real date and time of day.
pub fn format_date(date: &str) -> (r: String)
    requires
        first_shape(date@) + 28 <= date@.len() ==> date_valid0(date@.skip(first_shape(date@))),
    ensures
        first_shape(date@) + 28 <= date@.len() ==> r@ == normalized0(
            date@.skip(first_shape(date@)),
        ),
        first_shape(date@) + 28 > date@.len() ==> r@ == date@,
{
    let n = date.unicode_len();
    let mut i: usize = 0;
    while n >= 28 && i <= n - 28
        invariant
            0 <= i,
            i <= n,
            n == date@.len(),
            forall|k: int| 0 <= k < i ==> !date_shape0(date@.skip(k)),
        decreases n - i,
    {
        if date_shape_check(date, i) {
            proof {
                lemma_first_shape_found(date@, i as int);
            }
            let head = date.substring_char(i, i + 19);
            proof {
                assert(head@ =~= date@.skip(i as int).take(19));
            }
            let mut out = head.to_owned();
            out.append(".000Z");
            return out;
        }
        i = i + 1;
    }
    proof {
        assert forall|k: int| 0 <= k <= date@.len() implies !date_shape0(date@.skip(k)) by {
            if k < i {
            } else {
                assert(date@.skip(k).len() < 28);
            }
        }
        lemma_first_shape_absent(date@);
    }
    date.to_owned()
}

/// Tests the left-to-right scan's requirement: every capture-shaped
/// timestamp it takes carries a real date and time of day.
pub fn all_dates_valid_check(s: &str) -> (r: bool)
    ensures
        r == all_dates_valid(s@),
{
    let n = s.unicode_len();
    let mut i: usize = 0;
    proof {
        assert(s@.skip(0) =~= s@);
    }
    while i < n
        invariant
            0 <= i <= n,
            n == s@.len(),
            all_dates_valid(s@) == all_dates_valid(s@.skip(i as int)),
        decreases n - i,
    {
        proof {
            assert(s@.skip(i as int).drop_first() =~= s@.skip(i + 1));
            assert(s@.skip(i as int)[0] == s@[i as int]);
        }
        let matched: bool = if n >= 28 && i <= n - 28 {
            date_shape_check(s, i)
        } else {
            proof {
                assert(s@.skip(i as int).len() < 28);
                assert(!date_shape0(s@.skip(i as int)));
            }
            false
        };
        if matched {
            if !date_valid_check(s, i) {
                return false;
            }
            proof {
                assert(s@.skip(i as int).skip(28) =~= s@.skip(i + 28));
            }
            i = i + 28;
        } else {
            i = i + 1;
        }
    }
    proof {
        assert(s@.skip(n as int) =~= Seq::<char>::empty());
    }
    true
}

} // verus!
