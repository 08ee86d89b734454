//! Verified text utilities: prefix tests, substring search, digit parsing,
//! decimal formatting, line and path handling.
//!
//! All contracts are stated over `Seq<char>` views of `&str` and `String`.

use vstd::prelude::*;

verus! {

/// `p` is a prefix of `s`.
pub open spec fn has_prefix(s: Seq<char>, p: Seq<char>) -> bool {
    p.len() <= s.len() && s.subrange(0, p.len() as int) == p
}

/// `p` occurs in `s` starting at index `i`.
pub open spec fn matches_at(s: Seq<char>, p: Seq<char>, i: int) -> bool {
    0 <= i && i + p.len() <= s.len() && s.subrange(i, i + p.len() as int) == p
}

/// Whether `p` occurs in `s` starting at character index `i`.
pub fn match_at(s: &str, p: &str, i: usize) -> (r: bool)
    ensures
        r == matches_at(s@, p@, i as int),
{
    let sl = s.unicode_len();
    let pl = p.unicode_len();
    if i > sl || pl > sl - i {
        proof {
            assert(!matches_at(s@, p@, i as int));
        }
        return false;
    }
    let mut j: usize = 0;
    while j < pl
        invariant
            i + pl <= sl,
            sl == s@.len(),
            pl == p@.len(),
            j <= pl,
            forall|k: int| 0 <= k < j ==> s@[i + k] == p@[k],
        decreases pl - j,
    {
        if s.get_char(i + j) != p.get_char(j) {
            proof {
                assert(s@.subrange(i as int, i + pl as int)[j as int] != p@[j as int]);
            }
            return false;
        }
        j += 1;
    }
    proof {
        assert(s@.subrange(i as int, i + pl as int) =~= p@);
    }
    true
}

/// Whether `p` is a prefix of `s`.
pub fn str_starts_with(s: &str, p: &str) -> (r: bool)
    ensures
        r == has_prefix(s@, p@),
{
    match_at(s, p, 0)
}

/// Whether two strings hold the same characters.
pub fn str_eq(a: &str, b: &str) -> (r: bool)
    ensures
        r == (a@ == b@),
{
    let al = a.unicode_len();
    let bl = b.unicode_len();
    if al != bl {
        return false;
    }
    let mut i: usize = 0;
    while i < al
        invariant
            i <= al,
            al == a@.len(),
            al == b@.len(),
            forall|k: int| 0 <= k < i ==> a@[k] == b@[k],
        decreases al - i,
    {
        if a.get_char(i) != b.get_char(i) {
            return false;
        }
        i += 1;
    }
    proof {
        assert(a@ =~= b@);
    }
    true
}

/// `p` occurs somewhere in `s`.
pub open spec fn contains_seq(s: Seq<char>, p: Seq<char>) -> bool {
    exists|i: int| matches_at(s, p, i)
}

/// Whether `p` occurs somewhere in `s`.
pub fn contains_sub(s: &str, p: &str) -> (r: bool)
    ensures
        r == contains_seq(s@, p@),
{
    let sl = s.unicode_len();
    let pl = p.unicode_len();
    if pl > sl {
        proof {
            assert(forall|i: int| !matches_at(s@, p@, i));
        }
        return false;
    }
    if pl == 0 {
        proof {
            assert(s@.subrange(0, 0) =~= p@);
            assert(matches_at(s@, p@, 0));
        }
        return true;
    }
    let mut i: usize = 0;
    while i <= sl - pl
        invariant
            1 <= pl <= sl,
            sl == s@.len(),
            pl == p@.len(),
            i <= sl - pl + 1,
            forall|k: int| 0 <= k < i ==> !matches_at(s@, p@, k),
        decreases sl - pl + 1 - i,
    {
        if match_at(s, p, i) {
            return true;
        }
        i += 1;
    }
    proof {
        assert(forall|k: int| matches_at(s@, p@, k) ==> 0 <= k <= sl - pl);
    }
    false
}

/// `s` with every occurrence of the non-empty pattern `p` removed, scanning
/// left to right and never rescanning removed material.
pub open spec fn remove_occurrences(s: Seq<char>, p: Seq<char>) -> Seq<char>
    decreases s.len(),
{
    if p.len() == 0 || s.len() == 0 {
        s
    } else if has_prefix(s, p) {
        remove_occurrences(s.skip(p.len() as int), p)
    } else {
        seq![s[0]] + remove_occurrences(s.skip(1), p)
    }
}

/// Removes every occurrence of `p` from `s`, scanning left to right.
pub fn remove_all(s: &str, p: &str) -> (r: String)
    ensures
        r@ == remove_occurrences(s@, p@),
{
    let sl = s.unicode_len();
    let pl = p.unicode_len();
    if pl == 0 {
        return s.to_owned();
    }
    let mut out = String::new();
    proof {
        assert(s@.skip(0) =~= s@);
        assert(out@ + remove_occurrences(s@, p@) =~= remove_occurrences(s@, p@));
    }
    let mut i: usize = 0;
    while i < sl
        invariant
            pl == p@.len(),
            pl >= 1,
            sl == s@.len(),
            i <= sl,
            remove_occurrences(s@, p@) == out@ + remove_occurrences(s@.skip(i as int), p@),
        decreases sl - i,
    {
        let ghost pre = out@;
        if match_at(s, p, i) {
            proof {
                assert(s@.skip(i as int).subrange(0, pl as int) =~= s@.subrange(
                    i as int,
                    i + pl as int,
                ));
                assert(has_prefix(s@.skip(i as int), p@));
                assert(s@.skip(i as int).skip(pl as int) =~= s@.skip(i + pl as int));
            }
            i += pl;
        } else {
            proof {
                if has_prefix(s@.skip(i as int), p@) {
                    assert(s@.subrange(i as int, i + pl as int) =~= s@.skip(
                        i as int,
                    ).subrange(0, pl as int));
                    assert(matches_at(s@, p@, i as int));
                }
                assert(!has_prefix(s@.skip(i as int), p@));
                assert(s@.skip(i as int)[0] == s@[i as int]);
                assert(s@.skip(i as int).skip(1) =~= s@.skip(i + 1));
            }
            let c = s.substring_char(i, i + 1);
            out.append(c);
            proof {
                assert(s@.subrange(i as int, i + 1) =~= seq![s@[i as int]]);
                assert(out@ =~= pre + seq![s@[i as int]]);
                assert(pre + (seq![s@[i as int]] + remove_occurrences(s@.skip(i + 1), p@))
                    =~= out@ + remove_occurrences(s@.skip(i + 1), p@));
            }
            i += 1;
        }
    }
    proof {
        assert(s@.skip(sl as int) =~= Seq::<char>::empty());
        assert(out@ + Seq::<char>::empty() =~= out@);
    }
    out
}

/// The ten decimal digit characters.
pub open spec fn is_digit(c: char) -> bool {
    c == '0' || c == '1' || c == '2' || c == '3' || c == '4' || c == '5' || c == '6' || c == '7'
        || c == '8' || c == '9'
}

/// The numeric value of a decimal digit character; 0 for anything else.
pub open spec fn digit_val(c: char) -> nat {
    if c == '1' {
        1
    } else if c == '2' {
        2
    } else if c == '3' {
        3
    } else if c == '4' {
        4
    } else if c == '5' {
        5
    } else if c == '6' {
        6
    } else if c == '7' {
        7
    } else if c == '8' {
        8
    } else if c == '9' {
        9
    } else {
        0
    }
}

/// Every character between `a` and `b` is a decimal digit.
pub open spec fn all_digits(s: Seq<char>, a: int, b: int) -> bool {
    forall|k: int| a <= k < b ==> is_digit(s[k])
}

/// The value of a sequence of decimal digit characters, most significant first.
pub open spec fn digits_value(s: Seq<char>) -> nat
    decreases s.len(),
{
    if s.len() == 0 {
        0
    } else {
        digits_value(s.drop_last()) * 10 + digit_val(s.last())
    }
}

/// The numeric value of a digit character, or `None` for any other character.
pub fn digit_of(c: char) -> (r: Option<u8>)
    ensures
        r is Some <==> is_digit(c),
        r is Some ==> r.unwrap() as nat == digit_val(c),
{
    match c {
        '0' => Some(0),
        '1' => Some(1),
        '2' => Some(2),
        '3' => Some(3),
        '4' => Some(4),
        '5' => Some(5),
        '6' => Some(6),
        '7' => Some(7),
        '8' => Some(8),
        '9' => Some(9),
        _ => None,
    }
}

/// The least index `i >= from` with `s[i] == c`, or `s.len()` if there is none.
pub open spec fn index_of_from(s: Seq<char>, c: char, from: int) -> int
    decreases s.len() - from,
{
    if from >= s.len() || from < 0 {
        s.len() as int
    } else if s[from] == c {
        from
    } else {
        index_of_from(s, c, from + 1)
    }
}

proof fn lemma_index_of_from(s: Seq<char>, c: char, from: int, i: int)
    requires
        0 <= from <= i <= s.len(),
        forall|k: int| from <= k < i ==> s[k] != c,
        i == s.len() || s[i] == c,
    ensures
        index_of_from(s, c, from) == i,
    decreases i - from,
{
    if from < i {
        lemma_index_of_from(s, c, from + 1, i);
    }
}

/// The least index at or after `from` holding `c`, or the length if none does.
pub fn find_char(s: &str, c: char, from: usize) -> (r: usize)
    requires
        from <= s@.len(),
    ensures
        r == index_of_from(s@, c, from as int),
        from <= r <= s@.len(),
{
    let sl = s.unicode_len();
    let mut i = from;
    while i < sl
        invariant
            from <= i <= sl,
            sl == s@.len(),
            forall|k: int| from <= k < i ==> s@[k] != c,
        decreases sl - i,
    {
        if s.get_char(i) == c {
            proof {
                lemma_index_of_from(s@, c, from as int, i as int);
            }
            return i;
        }
        i += 1;
    }
    proof {
        lemma_index_of_from(s@, c, from as int, sl as int);
    }
    sl
}

/// The least index `i >= from` holding a digit, or `s.len()` if there is none.
pub open spec fn first_digit_from(s: Seq<char>, from: int) -> int
    decreases s.len() - from,
{
    if from >= s.len() || from < 0 {
        s.len() as int
    } else if is_digit(s[from]) {
        from
    } else {
        first_digit_from(s, from + 1)
    }
}

proof fn lemma_first_digit_from(s: Seq<char>, from: int, i: int)
    requires
        0 <= from <= i <= s.len(),
        forall|k: int| from <= k < i ==> !is_digit(s[k]),
        i == s.len() || is_digit(s[i]),
    ensures
        first_digit_from(s, from) == i,
    decreases i - from,
{
    if from < i {
        lemma_first_digit_from(s, from + 1, i);
    }
}

/// The least index `j >= from` holding a non-digit, or `s.len()` if there is none.
pub open spec fn digit_run_end(s: Seq<char>, from: int) -> int
    decreases s.len() - from,
{
    if from >= s.len() || from < 0 {
        s.len() as int
    } else if !is_digit(s[from]) {
        from
    } else {
        digit_run_end(s, from + 1)
    }
}

proof fn lemma_digit_run_end(s: Seq<char>, from: int, j: int)
    requires
        0 <= from <= j <= s.len(),
        forall|k: int| from <= k < j ==> is_digit(s[k]),
        j == s.len() || !is_digit(s[j]),
    ensures
        digit_run_end(s, from) == j,
    decreases j - from,
{
    if from < j {
        lemma_digit_run_end(s, from + 1, j);
    }
}

/// Extending a digit run never shrinks its value.
proof fn lemma_digits_value_monotone(s: Seq<char>, i: int, j: int, j2: int)
    requires
        0 <= i <= j <= j2 <= s.len(),
    ensures
        digits_value(s.subrange(i, j)) <= digits_value(s.subrange(i, j2)),
    decreases j2 - j,
{
    if j < j2 {
        lemma_digits_value_monotone(s, i, j, j2 - 1);
        assert(s.subrange(i, j2).drop_last() =~= s.subrange(i, j2 - 1));
    }
}

/// The first run of decimal digits in `s`, as a number: `None` when `s` holds
/// no digit or when the run's value does not fit in a `u32`.
pub open spec fn first_number(s: Seq<char>) -> Option<u32> {
    let i = first_digit_from(s, 0);
    if i == s.len() {
        None
    } else {
        let j = digit_run_end(s, i);
        let v = digits_value(s.subrange(i, j));
        if v > u32::MAX {
            None
        } else {
            Some(v as u32)
        }
    }
}

/// Finds the first run of decimal digits in `s` and parses it, as a reader
/// page count is pulled out of a "total pages" label.
pub fn parse_first_number(s: &str) -> (r: Option<u32>)
    ensures
        r == first_number(s@),
{
    let sl = s.unicode_len();
    let mut i: usize = 0;
    while i < sl && digit_of(s.get_char(i)).is_none()
        invariant
            i <= sl,
            sl == s@.len(),
            forall|k: int| 0 <= k < i ==> !is_digit(s@[k]),
        decreases sl - i,
    {
        i += 1;
    }
    proof {
        lemma_first_digit_from(s@, 0, i as int);
    }
    if i == sl {
        return None;
    }
    let mut j: usize = i;
    let mut v: u64 = 0;
    while j < sl && digit_of(s.get_char(j)).is_some()
        invariant
            i <= j <= sl,
            sl == s@.len(),
            i < sl,
            first_digit_from(s@, 0) == i as int,
            is_digit(s@[i as int]),
            forall|k: int| i <= k < j ==> is_digit(s@[k]),
            v <= u32::MAX,
            v as nat == digits_value(s@.subrange(i as int, j as int)),
        decreases sl - j,
    {
        let d = digit_of(s.get_char(j)).unwrap();
        proof {
            assert(s@.subrange(i as int, j + 1).drop_last() =~= s@.subrange(i as int, j as int));
        }
        let v2: u64 = v * 10 + (d as u64);
        j += 1;
        if v2 > u32::MAX as u64 {
            // the run can only grow from here, so the number cannot fit
            proof {
                let e = digit_run_end(s@, i as int);
                lemma_digit_run_end_bounds(s@, i as int);
                lemma_digit_run_end_lower(s@, i as int, j as int);
                assert(digits_value(s@.subrange(i as int, j as int)) == v2 as nat);
                lemma_digits_value_monotone(s@, i as int, j as int, e);
            }
            return None;
        }
        v = v2;
    }
    proof {
        lemma_digit_run_end(s@, i as int, j as int);
    }
    Some(v as u32)
}

/// The end of a digit run lies between its start and the end of the text.
proof fn lemma_digit_run_end_bounds(s: Seq<char>, from: int)
    requires
        0 <= from <= s.len(),
    ensures
        from <= digit_run_end(s, from) <= s.len(),
    decreases s.len() - from,
{
    if from < s.len() && is_digit(s[from]) {
        lemma_digit_run_end_bounds(s, from + 1);
    }
}

/// Every index of a digit run lies at or before the run's end.
proof fn lemma_digit_run_end_lower(s: Seq<char>, i: int, j: int)
    requires
        0 <= i <= j <= s.len(),
        forall|k: int| i <= k < j ==> is_digit(s[k]),
    ensures
        j <= digit_run_end(s, i),
    decreases j - i,
{
    if i < j {
        lemma_digit_run_end_lower(s, i + 1, j);
    } else {
        lemma_digit_run_end_bounds(s, i);
    }
}

/// The end of the digit run beginning at `from`.
pub fn digit_run_end_exec(s: &str, from: usize) -> (r: usize)
    requires
        from <= s@.len(),
    ensures
        r == digit_run_end(s@, from as int),
        from <= r <= s@.len(),
{
    let sl = s.unicode_len();
    let mut j = from;
    while j < sl && digit_of(s.get_char(j)).is_some()
        invariant
            from <= j <= sl,
            sl == s@.len(),
            forall|k: int| from <= k < j ==> is_digit(s@[k]),
        decreases sl - j,
    {
        j += 1;
    }
    proof {
        lemma_digit_run_end(s@, from as int, j as int);
    }
    j
}

/// Parses the characters of `s` between `a` and `b` as a decimal number,
/// `None` when its value does not fit in a `u32`.
pub fn parse_digits_range(s: &str, a: usize, b: usize) -> (r: Option<u32>)
    requires
        a <= b <= s@.len(),
    ensures
        match r {
            Some(n) => digits_value(s@.subrange(a as int, b as int)) == n as nat,
            None => digits_value(s@.subrange(a as int, b as int)) > u32::MAX,
        },
{
    let mut j = a;
    let mut v: u64 = 0;
    proof {
        assert(s@.subrange(a as int, a as int) =~= Seq::<char>::empty());
    }
    while j < b
        invariant
            a <= j <= b <= s@.len(),
            v <= u32::MAX,
            v as nat == digits_value(s@.subrange(a as int, j as int)),
        decreases b - j,
    {
        let d: u64 = match digit_of(s.get_char(j)) {
            Some(d) => d as u64,
            None => 0,
        };
        proof {
            assert(s@.subrange(a as int, j + 1).drop_last() =~= s@.subrange(a as int, j as int));
        }
        let v2: u64 = v * 10 + d;
        j += 1;
        if v2 > u32::MAX as u64 {
            proof {
                assert(digits_value(s@.subrange(a as int, j as int)) == v2 as nat);
                lemma_digits_value_monotone(s@, a as int, j as int, b as int);
            }
            return None;
        }
        v = v2;
    }
    Some(v as u32)
}

/// The digit character for a value below ten.
pub open spec fn dec_digit_char(d: nat) -> char {
    if d == 1 {
        '1'
    } else if d == 2 {
        '2'
    } else if d == 3 {
        '3'
    } else if d == 4 {
        '4'
    } else if d == 5 {
        '5'
    } else if d == 6 {
        '6'
    } else if d == 7 {
        '7'
    } else if d == 8 {
        '8'
    } else if d == 9 {
        '9'
    } else {
        '0'
    }
}

/// The decimal representation of `n`, most significant digit first, no sign
/// and no leading zero except for `n == 0` itself.
pub open spec fn dec_rep(n: nat) -> Seq<char>
    decreases n,
{
    if n < 10 {
        seq![dec_digit_char(n)]
    } else {
        dec_rep(n / 10).push(dec_digit_char(n % 10))
    }
}

/// How many digits the decimal representation has, for small magnitudes.
proof fn lemma_dec_rep_len(n: nat)
    ensures
        n < 10 ==> dec_rep(n).len() == 1,
        10 <= n < 100 ==> dec_rep(n).len() == 2,
        100 <= n < 1000 ==> dec_rep(n).len() == 3,
        n >= 1000 ==> dec_rep(n).len() >= 4,
    decreases n,
{
    if n >= 10 {
        lemma_dec_rep_len(n / 10);
    }
}

/// The one-character text of a decimal digit.
fn digit_str(d: u32) -> (r: &'static str)
    requires
        d < 10,
    ensures
        r@ == seq![dec_digit_char(d as nat)],
{
    let r: &'static str = match d {
        0 => "0",
        1 => "1",
        2 => "2",
        3 => "3",
        4 => "4",
        5 => "5",
        6 => "6",
        7 => "7",
        8 => "8",
        _ => "9",
    };
    proof {
        reveal_strlit("0");
        reveal_strlit("1");
        reveal_strlit("2");
        reveal_strlit("3");
        reveal_strlit("4");
        reveal_strlit("5");
        reveal_strlit("6");
        reveal_strlit("7");
        reveal_strlit("8");
        reveal_strlit("9");
        assert(r@ =~= seq![dec_digit_char(d as nat)]);
    }
    r
}

/// Writes `n` out in decimal, most significant digit first.
pub(crate) fn u32_to_string(n: u32) -> (r: String)
    ensures
        r@ == dec_rep(n as nat),
    decreases n,
{
    if n < 10 {
        digit_str(n).to_owned()
    } else {
        let r = u32_to_string(n / 10).concat(digit_str(n % 10));
        proof {
            assert(r@ =~= dec_rep(n as nat));
        }
        r
    }
}

/// How many bytes the UTF-8 encoding of `c` takes.
pub open spec fn utf8_len_char(c: char) -> nat {
    if (c as u32) < 0x80 {
        1
    } else if (c as u32) < 0x800 {
        2
    } else if (c as u32) < 0x10000 {
        3
    } else {
        4
    }
}

/// How many bytes the UTF-8 encoding of `s` takes.
pub open spec fn utf8_length(s: Seq<char>) -> nat
    decreases s.len(),
{
    if s.len() == 0 {
        0
    } else {
        utf8_length(s.drop_last()) + utf8_len_char(s.last())
    }
}

/// The decimal representation of `n` left-padded with zeros to width four,
/// as page image files are numbered.
pub open spec fn padded4(n: nat) -> Seq<char> {
    if n < 10 {
        seq!['0', '0', '0'] + dec_rep(n)
    } else if n < 100 {
        seq!['0', '0'] + dec_rep(n)
    } else if n < 1000 {
        seq!['0'] + dec_rep(n)
    } else {
        dec_rep(n)
    }
}

/// The staging file name of page `n`: its number padded to four digits, with
/// the `.jpg` extension.
pub fn page_file_name(n: u32) -> (r: String)
    ensures
        r@ == padded4(n as nat) + ".jpg"@,
{
    let digits = u32_to_string(n);
    let mut out: String = if n < 10 {
        String::from_str("000")
    } else if n < 100 {
        String::from_str("00")
    } else if n < 1000 {
        String::from_str("0")
    } else {
        String::new()
    };
    proof {
        reveal_strlit("000");
        reveal_strlit("00");
        reveal_strlit("0");
        lemma_dec_rep_len(n as nat);
        if n < 10 {
            assert(out@ =~= seq!['0', '0', '0']);
        } else if n < 100 {
            assert(out@ =~= seq!['0', '0']);
        } else if n < 1000 {
            assert(out@ =~= seq!['0']);
        }
    }
    out.append(digits.as_str());
    proof {
        assert(out@ =~= padded4(n as nat));
    }
    out.append(".jpg");
    out
}

/// `l` with one trailing carriage return removed, as the `lines` view of a
/// text drops it.
pub open spec fn strip_cr(l: Seq<char>) -> Seq<char> {
    if l.len() > 0 && l.last() == '\r' {
        l.drop_last()
    } else {
        l
    }
}

/// The second line of `s` under newline splitting, or `None` when `s` has
/// fewer than two lines.
pub open spec fn second_line_of(s: Seq<char>) -> Option<Seq<char>> {
    let i1 = index_of_from(s, '\n', 0);
    if i1 + 1 < s.len() {
        Some(strip_cr(s.subrange(i1 + 1, index_of_from(s, '\n', i1 + 1))))
    } else {
        None
    }
}

/// The second line of `s`, as issue labels sit on the second line of a
/// listing entry's inner HTML.
pub fn second_line(s: &str) -> (r: Option<String>)
    ensures
        r is Some <==> second_line_of(s@) is Some,
        r is Some ==> r.unwrap()@ == second_line_of(s@).unwrap(),
{
    let sl = s.unicode_len();
    let i1 = find_char(s, '\n', 0);
    if i1 < sl {
        let start = i1 + 1;
        if start < sl {
            let i2 = find_char(s, '\n', start);
            let end: usize = if i2 > start && s.get_char(i2 - 1) == '\r' {
                i2 - 1
            } else {
                i2
            };
            proof {
                let line = s@.subrange(start as int, i2 as int);
                if i2 > start && s@[i2 - 1] == '\r' {
                    assert(line.last() == '\r');
                    assert(line.drop_last() =~= s@.subrange(start as int, end as int));
                } else {
                    assert(line.len() > 0 ==> line.last() == s@[i2 - 1]);
                }
                assert(strip_cr(line) =~= s@.subrange(start as int, end as int));
            }
            Some(s.substring_char(start, end).to_owned())
        } else {
            None
        }
    } else {
        None
    }
}

/// Whitespace as the trimming of scraped labels understands it.
pub open spec fn is_space(c: char) -> bool {
    c == ' ' || c == '\t' || c == '\r' || c == '\n'
}

/// Whether `c` counts as whitespace for trimming.
pub fn is_space_char(c: char) -> (r: bool)
    ensures
        r == is_space(c),
{
    c == ' ' || c == '\t' || c == '\r' || c == '\n'
}

/// The least index `i >= from` holding a non-space, or `s.len()` if none does.
pub open spec fn first_non_space_from(s: Seq<char>, from: int) -> int
    decreases s.len() - from,
{
    if from >= s.len() || from < 0 {
        s.len() as int
    } else if !is_space(s[from]) {
        from
    } else {
        first_non_space_from(s, from + 1)
    }
}

proof fn lemma_first_non_space_from(s: Seq<char>, from: int, i: int)
    requires
        0 <= from <= i <= s.len(),
        forall|k: int| from <= k < i ==> is_space(s[k]),
        i == s.len() || !is_space(s[i]),
    ensures
        first_non_space_from(s, from) == i,
    decreases i - from,
{
    if from < i {
        lemma_first_non_space_from(s, from + 1, i);
    }
}

/// One past the last non-space character of `s`; 0 when `s` is all spaces.
pub open spec fn end_non_space(s: Seq<char>) -> int
    decreases s.len(),
{
    if s.len() == 0 {
        0
    } else if !is_space(s.last()) {
        s.len() as int
    } else {
        end_non_space(s.drop_last())
    }
}

proof fn lemma_end_non_space(s: Seq<char>, b: int)
    requires
        0 <= b <= s.len(),
        forall|k: int| b <= k < s.len() ==> is_space(s[k]),
        b == 0 || !is_space(s[b - 1]),
    ensures
        end_non_space(s) == b,
    decreases s.len(),
{
    if s.len() > 0 && b < s.len() {
        assert(is_space(s.last()));
        assert(forall|k: int| b <= k < s.len() - 1 ==> s.drop_last()[k] == s[k]);
        lemma_end_non_space(s.drop_last(), b);
    }
}

/// `s` with leading and trailing whitespace removed.
pub open spec fn trimmed(s: Seq<char>) -> Seq<char> {
    let a = first_non_space_from(s, 0);
    let b = end_non_space(s);
    if a < b {
        s.subrange(a, b)
    } else {
        Seq::empty()
    }
}

/// Removes leading and trailing whitespace, as scraped chapter labels are
/// normalized.
pub fn trim_str(s: &str) -> (r: String)
    ensures
        r@ == trimmed(s@),
{
    let sl = s.unicode_len();
    let mut a: usize = 0;
    while a < sl && is_space_char(s.get_char(a))
        invariant
            a <= sl,
            sl == s@.len(),
            forall|k: int| 0 <= k < a ==> is_space(s@[k]),
        decreases sl - a,
    {
        a += 1;
    }
    proof {
        lemma_first_non_space_from(s@, 0, a as int);
    }
    let mut b: usize = sl;
    while b > a && is_space_char(s.get_char(b - 1))
        invariant
            a <= b <= sl,
            sl == s@.len(),
            forall|k: int| b <= k < sl ==> is_space(s@[k]),
        decreases b,
    {
        b -= 1;
    }
    if a < b {
        proof {
            lemma_end_non_space(s@, b as int);
        }
        s.substring_char(a, b).to_owned()
    } else {
        proof {
            // the loops met, so every character of `s` is a space
            assert(a == sl);
            lemma_end_non_space(s@, 0);
        }
        String::new()
    }
}

/// The index just after the last `/` in `s`; 0 when `s` holds none.
pub open spec fn after_last_slash(s: Seq<char>) -> int
    decreases s.len(),
{
    if s.len() == 0 {
        0
    } else if s.last() == '/' {
        s.len() as int
    } else {
        after_last_slash(s.drop_last())
    }
}

/// The suffix of `s` after its last `/`: the bare file name of a path.
pub open spec fn base_name_of(s: Seq<char>) -> Seq<char> {
    s.subrange(after_last_slash(s), s.len() as int)
}

proof fn lemma_after_last_slash(s: Seq<char>, b: int)
    requires
        0 <= b <= s.len(),
        forall|k: int| b <= k < s.len() ==> s[k] != '/',
        b == 0 || s[b - 1] == '/',
    ensures
        after_last_slash(s) == b,
    decreases s.len(),
{
    if s.len() > 0 && b < s.len() {
        assert(s.last() != '/');
        assert(forall|k: int| b <= k < s.len() - 1 ==> s.drop_last()[k] == s[k]);
        lemma_after_last_slash(s.drop_last(), b);
    }
}

/// No `/` stands after the last `/`.
proof fn lemma_no_slash_after(s: Seq<char>)
    ensures
        0 <= after_last_slash(s) <= s.len(),
        forall|k: int| after_last_slash(s) <= k < s.len() ==> s[k] != '/',
    decreases s.len(),
{
    if s.len() > 0 && s.last() != '/' {
        lemma_no_slash_after(s.drop_last());
        assert forall|k: int| after_last_slash(s) <= k < s.len() implies s[k] != '/' by {
            if k < s.len() - 1 {
                assert(s.drop_last()[k] == s[k]);
            } else {
                assert(s[k] == s.last());
            }
        }
    }
}

/// The base name holds no `/`, so archive entries carry bare file names.
pub proof fn lemma_base_name_no_slash(s: Seq<char>)
    ensures
        forall|k: int| 0 <= k < base_name_of(s).len() ==> base_name_of(s)[k] != '/',
{
    lemma_no_slash_after(s);
    assert forall|k: int| 0 <= k < base_name_of(s).len() implies base_name_of(s)[k] != '/' by {
        assert(base_name_of(s)[k] == s[after_last_slash(s) + k]);
    }
}

/// The part of a path after its final `/`, used to file pages under bare names.
pub fn base_name(s: &str) -> (r: String)
    ensures
        r@ == base_name_of(s@),
{
    let sl = s.unicode_len();
    let mut b: usize = sl;
    while b > 0 && s.get_char(b - 1) != '/'
        invariant
            b <= sl,
            sl == s@.len(),
            forall|k: int| b <= k < sl ==> s@[k] != '/',
        decreases b,
    {
        b -= 1;
    }
    proof {
        lemma_after_last_slash(s@, b as int);
    }
    s.substring_char(b, sl).to_owned()
}

} // verus!
