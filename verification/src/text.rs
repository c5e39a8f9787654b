//! The little text handling the tools need: trimming, splitting and decimal
//! numbers. Text is modelled as a sequence of characters.

use vstd::prelude::*;

verus! {

/// The texts a vector of strings holds.
pub open spec fn texts(v: Seq<String>) -> Seq<Seq<char>> {
    v.map_values(|s: String| s@)
}

/// The characters of `s`.
pub fn chars_of(s: &str) -> (r: Vec<char>)
    ensures
        r@ == s@,
{
    let mut r: Vec<char> = Vec::new();
    for c in it: s.chars()
        invariant
            it.seq() == s@,
            r@ == it.seq().take(it.index() as int),
    {
        r.push(c);
    }
    r
}

/// Whether two texts are equal.
pub fn same(a: &str, b: &str) -> (r: bool)
    ensures
        r == (a@ == b@),
{
    a.to_owned() == b.to_owned()
}

/// `s` without the leading text `prefix`, if it starts with it.
pub open spec fn stripped(s: Seq<char>, prefix: Seq<char>) -> Option<Seq<char>> {
    if prefix.len() <= s.len() && s.take(prefix.len() as int) == prefix {
        Some(s.skip(prefix.len() as int))
    } else {
        None
    }
}

/// The rest of `s` after `prefix`, or `None` where `s` does not start with it.
pub fn strip_prefix<'a>(s: &'a str, prefix: &str) -> (r: Option<&'a str>)
    ensures
        r is Some <==> stripped(s@, prefix@) is Some,
        r is Some ==> r->0@ == stripped(s@, prefix@)->0,
{
    let n: usize = s.unicode_len();
    let k: usize = prefix.unicode_len();
    if k > n {
        return None;
    }
    let head = s.substring_char(0, k);
    if same(head, prefix) {
        Some(s.substring_char(k, n))
    } else {
        None
    }
}

/// Whether `c` has the Unicode property `White_Space`.
pub open spec fn white_space(c: char) -> bool {
    ||| '\u{9}' <= c <= '\u{d}'
    ||| c == ' '
    ||| c == '\u{85}'
    ||| c == '\u{a0}'
    ||| c == '\u{1680}'
    ||| '\u{2000}' <= c <= '\u{200a}'
    ||| c == '\u{2028}'
    ||| c == '\u{2029}'
    ||| c == '\u{202f}'
    ||| c == '\u{205f}'
    ||| c == '\u{3000}'
}

/// Whether `c` is white space.
pub fn is_white_space(c: char) -> (r: bool)
    ensures
        r == white_space(c),
{
    ('\u{9}' <= c && c <= '\u{d}') || c == ' ' || c == '\u{85}' || c == '\u{a0}' || c == '\u{1680}'
        || ('\u{2000}' <= c && c <= '\u{200a}') || c == '\u{2028}' || c == '\u{2029}' || c
        == '\u{202f}' || c == '\u{205f}' || c == '\u{3000}'
}

/// `s` without leading white space.
pub open spec fn trimmed_start(s: Seq<char>) -> Seq<char>
    decreases s.len(),
{
    if s.len() > 0 && white_space(s.first()) {
        trimmed_start(s.drop_first())
    } else {
        s
    }
}

/// `s` without trailing white space.
pub open spec fn trimmed_end(s: Seq<char>) -> Seq<char>
    decreases s.len(),
{
    if s.len() > 0 && white_space(s.last()) {
        trimmed_end(s.drop_last())
    } else {
        s
    }
}

/// `s` without white space at either end.
pub open spec fn trimmed(s: Seq<char>) -> Seq<char> {
    trimmed_end(trimmed_start(s))
}

/// Removes white space from both ends.
pub fn trim<'a>(s: &'a str) -> (r: &'a str)
    ensures
        r@ == trimmed(s@),
{
    let cs = chars_of(s);
    let n: usize = cs.len();
    let mut lo: usize = 0;
    assert(s@.skip(0) == s@);
    while lo < n && is_white_space(cs[lo])
        invariant
            cs@ == s@,
            n == cs@.len(),
            lo <= n,
            trimmed_start(s@) == trimmed_start(s@.skip(lo as int)),
        decreases n - lo,
    {
        assert(s@.skip(lo as int).drop_first() == s@.skip(lo + 1));
        lo = lo + 1;
    }
    assert(trimmed_start(s@) == s@.skip(lo as int));
    let mut hi: usize = n;
    while hi > lo && is_white_space(cs[hi - 1])
        invariant
            cs@ == s@,
            n == cs@.len(),
            lo <= hi <= n,
            trimmed_end(s@.skip(lo as int)) == trimmed_end(s@.subrange(lo as int, hi as int)),
        decreases hi - lo,
    {
        assert(s@.subrange(lo as int, hi as int).drop_last() == s@.subrange(lo as int, hi - 1));
        hi = hi - 1;
    }
    s.substring_char(lo, hi)
}

/// `s` without the trailing characters equal to `c`.
pub open spec fn trimmed_end_of(s: Seq<char>, c: char) -> Seq<char>
    decreases s.len(),
{
    if s.len() > 0 && s.last() == c {
        trimmed_end_of(s.drop_last(), c)
    } else {
        s
    }
}

/// Removes every trailing `c`.
pub fn trim_end_of<'a>(s: &'a str, c: char) -> (r: &'a str)
    ensures
        r@ == trimmed_end_of(s@, c),
{
    let cs = chars_of(s);
    let mut hi: usize = cs.len();
    assert(s@.take(hi as int) == s@);
    while hi > 0 && cs[hi - 1] == c
        invariant
            cs@ == s@,
            hi <= cs@.len(),
            trimmed_end_of(s@, c) == trimmed_end_of(s@.take(hi as int), c),
        decreases hi,
    {
        assert(s@.take(hi as int).drop_last() == s@.take(hi - 1));
        hi = hi - 1;
    }
    s.substring_char(0, hi)
}

/// `s` without the trailing repetitions of a non-empty `suffix`.
pub open spec fn trimmed_suffix(s: Seq<char>, suffix: Seq<char>) -> Seq<char>
    decreases s.len(),
{
    if 0 < suffix.len() <= s.len() && s.skip(s.len() - suffix.len()) == suffix {
        trimmed_suffix(s.take(s.len() - suffix.len()), suffix)
    } else {
        s
    }
}

/// Removes every trailing repetition of `suffix`.
pub fn trim_suffix<'a>(s: &'a str, suffix: &str) -> (r: &'a str)
    requires
        suffix@.len() > 0,
    ensures
        r@ == trimmed_suffix(s@, suffix@),
{
    let k: usize = suffix.unicode_len();
    let mut hi: usize = s.unicode_len();
    assert(s@.take(hi as int) == s@);
    while hi >= k && same(s.substring_char(hi - k, hi), suffix)
        invariant
            k == suffix@.len(),
            k > 0,
            hi <= s@.len(),
            trimmed_suffix(s@, suffix@) == trimmed_suffix(s@.take(hi as int), suffix@),
        decreases hi,
    {
        assert(s@.take(hi as int).skip(hi - k) == s@.subrange(hi - k, hi as int));
        assert(s@.take(hi as int).take(hi - k) == s@.take(hi - k));
        hi = hi - k;
    }
    assert(hi >= k ==> s@.take(hi as int).skip(hi - k) == s@.subrange(hi - k, hi as int));
    s.substring_char(0, hi)
}

/// The pieces of `s` between separators `sep`: one more than there are
/// separators, empty pieces included.
pub open spec fn pieces(s: Seq<char>, sep: char) -> Seq<Seq<char>>
    decreases s.len(),
{
    if s.len() == 0 {
        seq![Seq::<char>::empty()]
    } else {
        let before = pieces(s.drop_last(), sep);
        if s.last() == sep {
            before.push(Seq::<char>::empty())
        } else {
            before.drop_last().push(before.last().push(s.last()))
        }
    }
}

/// Splits `s` at every `sep`.
pub fn split_at_each(s: &str, sep: char) -> (r: Vec<String>)
    ensures
        texts(r@) == pieces(s@, sep),
{
    let cs = chars_of(s);
    let n: usize = cs.len();
    let mut r: Vec<String> = Vec::new();
    let mut from: usize = 0;
    let mut i: usize = 0;
    assert(texts(r@).push(s@.subrange(0, 0)) == pieces(s@.take(0), sep)) by {
        assert(s@.subrange(0, 0) == Seq::<char>::empty());
        assert(texts(r@) == Seq::<Seq<char>>::empty());
    }
    while i < n
        invariant
            cs@ == s@,
            n == cs@.len(),
            from <= i <= n,
            texts(r@).push(s@.subrange(from as int, i as int)) == pieces(s@.take(i as int), sep),
        decreases n - i,
    {
        let ghost before = r@;
        assert(s@.take(i + 1).drop_last() == s@.take(i as int));
        assert(s@.take(i + 1).last() == s@[i as int]);
        let ghost p = pieces(s@.take(i as int), sep);
        assert(p.last() == s@.subrange(from as int, i as int));
        assert(p.drop_last() == texts(before));
        if cs[i] == sep {
            r.push(s.substring_char(from, i).to_owned());
            assert(texts(r@) == texts(before).push(s@.subrange(from as int, i as int)));
            assert(texts(r@) == p);
            from = i + 1;
            assert(s@.subrange(from as int, i + 1) == Seq::<char>::empty());
        } else {
            assert(s@.subrange(from as int, i + 1) == s@.subrange(from as int, i as int).push(s@[i as int]));
        }
        i = i + 1;
    }
    assert(s@.take(n as int) == s@);
    let ghost before = r@;
    r.push(s.substring_char(from, n).to_owned());
    assert(texts(r@) == texts(before).push(s@.subrange(from as int, n as int)));
    r
}

/// A line without the carriage return that may stand before its line feed.
pub open spec fn without_return(line: Seq<char>) -> Seq<char> {
    if line.len() > 0 && line.last() == '\r' {
        line.drop_last()
    } else {
        line
    }
}

/// The lines of `s`, each without its line ending: a line feed, or a carriage
/// return and a line feed. What follows the last line feed is a line too,
/// unless it is empty.
pub open spec fn lines_of(s: Seq<char>) -> Seq<Seq<char>> {
    let all = pieces(s, '\n');
    let ended = all.drop_last().map_values(|line: Seq<char>| without_return(line));
    if all.last().len() == 0 {
        ended
    } else {
        ended.push(all.last())
    }
}

fn trim_return(line: &str) -> (r: String)
    ensures
        r@ == without_return(line@),
{
    let n: usize = line.unicode_len();
    if n > 0 && line.get_char(n - 1) == '\r' {
        line.substring_char(0, n - 1).to_owned()
    } else {
        line.to_owned()
    }
}

/// Splits `s` into lines.
pub fn lines(s: &str) -> (r: Vec<String>)
    ensures
        texts(r@) == lines_of(s@),
{
    let all = split_at_each(s, '\n');
    proof {
        lemma_pieces_nonempty(s@, '\n');
        assert(texts(all@).len() == all@.len());
    }
    let last: usize = all.len() - 1;
    let ghost ended = texts(all@).drop_last().map_values(|line: Seq<char>| without_return(line));
    let mut r: Vec<String> = Vec::new();
    let mut i: usize = 0;
    while i < last
        invariant
            i <= last,
            last == all@.len() - 1,
            ended == texts(all@).drop_last().map_values(|line: Seq<char>| without_return(line)),
            texts(r@) == ended.take(i as int),
        decreases last - i,
    {
        let ghost before = r@;
        r.push(trim_return(all[i].as_str()));
        i = i + 1;
        assert(texts(r@) == texts(before).push(r@.last()@));
        assert(ended.take(i as int) == ended.take(i - 1).push(ended[i - 1]));
    }
    assert(ended.take(last as int) == ended);
    assert(texts(all@).last() == all@[last as int]@);
    if !all[last].as_str().is_empty() {
        let ghost before = r@;
        r.push(all[last].as_str().to_owned());
        assert(texts(r@) == texts(before).push(all@[last as int]@));
    }
    r
}

/// Splitting gives at least one piece.
pub proof fn lemma_pieces_nonempty(s: Seq<char>, sep: char)
    ensures
        pieces(s, sep).len() > 0,
    decreases s.len(),
{
    if s.len() > 0 {
        lemma_pieces_nonempty(s.drop_last(), sep);
    }
}

/// The maximal runs of characters that are not white space.
pub open spec fn words_of(s: Seq<char>) -> Seq<Seq<char>>
    decreases s.len(),
{
    if s.len() == 0 {
        Seq::<Seq<char>>::empty()
    } else {
        let before = words_of(s.drop_last());
        if white_space(s.last()) {
            before
        } else if s.len() == 1 || white_space(s[s.len() - 2]) {
            before.push(seq![s.last()])
        } else {
            before.drop_last().push(before.last().push(s.last()))
        }
    }
}

/// Splits `s` at white space.
pub fn words(s: &str) -> (r: Vec<String>)
    ensures
        texts(r@) == words_of(s@),
{
    let cs = chars_of(s);
    let n: usize = cs.len();
    let mut r: Vec<String> = Vec::new();
    let mut from: usize = 0;
    let mut i: usize = 0;
    assert(texts(r@) == Seq::<Seq<char>>::empty());
    while i < n
        invariant
            cs@ == s@,
            n == cs@.len(),
            from <= i <= n,
            from == i <==> (i == 0 || white_space(s@[i - 1])),
            from == i ==> texts(r@) == words_of(s@.take(i as int)),
            from < i ==> texts(r@).push(s@.subrange(from as int, i as int)) == words_of(
                s@.take(i as int),
            ),
        decreases n - i,
    {
        let ghost before = r@;
        let ghost w = words_of(s@.take(i as int));
        assert(s@.take(i + 1).drop_last() == s@.take(i as int));
        assert(s@.take(i + 1).last() == s@[i as int]);
        if is_white_space(cs[i]) {
            if from < i {
                r.push(s.substring_char(from, i).to_owned());
                assert(texts(r@) == texts(before).push(s@.subrange(from as int, i as int)));
            }
            from = i + 1;
        } else {
            if from < i {
                assert(w.drop_last() == texts(before));
                assert(w.last() == s@.subrange(from as int, i as int));
                assert(s@.subrange(from as int, i + 1) == s@.subrange(from as int, i as int).push(s@[i as int]));
            } else {
                assert(s@.subrange(from as int, i + 1) == seq![s@[i as int]]);
            }
        }
        i = i + 1;
    }
    assert(s@.take(n as int) == s@);
    if from < n {
        let ghost before = r@;
        r.push(s.substring_char(from, n).to_owned());
        assert(texts(r@) == texts(before).push(s@.subrange(from as int, n as int)));
    }
    r
}

/// Whether `c` is a decimal digit.
pub open spec fn is_digit(c: char) -> bool {
    '0' <= c <= '9'
}

/// The number a string of decimal digits stands for.
pub open spec fn digits_value(s: Seq<char>) -> nat
    decreases s.len(),
{
    if s.len() == 0 {
        0
    } else {
        10 * digits_value(s.drop_last()) + ((s.last() as nat) - ('0' as nat)) as nat
    }
}

/// Whether `s` is one or more decimal digits.
pub open spec fn is_digits(s: Seq<char>) -> bool {
    &&& s.len() > 0
    &&& forall|i: int| 0 <= i < s.len() ==> is_digit(#[trigger] s[i])
}

/// The number written as an optional plus sign and decimal digits.
pub open spec fn unsigned_value(s: Seq<char>) -> Option<nat> {
    let d = if s.len() > 0 && s[0] == '+' {
        s.drop_first()
    } else {
        s
    };
    if is_digits(d) {
        Some(digits_value(d))
    } else {
        None
    }
}

/// The number written as an optional sign and decimal digits.
pub open spec fn signed_value(s: Seq<char>) -> Option<int> {
    if s.len() > 0 && s[0] == '-' {
        if is_digits(s.drop_first()) {
            Some(-(digits_value(s.drop_first()) as int))
        } else {
            None
        }
    } else {
        match unsigned_value(s) {
            Some(n) => Some(n as int),
            None => None,
        }
    }
}

/// The 64-bit number that `s` writes, if it writes one.
pub open spec fn u64_value(s: Seq<char>) -> Option<u64> {
    match unsigned_value(s) {
        Some(n) => if n <= u64::MAX {
            Some(n as u64)
        } else {
            None
        },
        None => None,
    }
}

/// The signed 32-bit number that `s` writes, if it writes one.
pub open spec fn i32_value(s: Seq<char>) -> Option<i32> {
    match signed_value(s) {
        Some(n) => if i32::MIN <= n <= i32::MAX {
            Some(n as i32)
        } else {
            None
        },
        None => None,
    }
}

/// A prefix of a digit string stands for no more than the whole.
proof fn lemma_prefix_value(s: Seq<char>, k: int)
    requires
        0 <= k <= s.len(),
    ensures
        digits_value(s.take(k)) <= digits_value(s),
    decreases s.len(),
{
    if k < s.len() {
        assert(s.drop_last().take(k) == s.take(k));
        lemma_prefix_value(s.drop_last(), k);
    } else {
        assert(s.take(k) == s);
    }
}

/// The value of the digits from index `from` on, up to `max`.
fn digits_from(cs: &Vec<char>, from: usize, max: u64) -> (r: Option<u64>)
    requires
        from <= cs@.len(),
    ensures
        match r {
            Some(n) => is_digits(cs@.skip(from as int)) && digits_value(cs@.skip(from as int)) == n
                && n <= max,
            None => is_digits(cs@.skip(from as int)) ==> digits_value(cs@.skip(from as int)) > max,
        },
{
    let ghost d = cs@.skip(from as int);
    let n: usize = cs.len();
    if from == n {
        return None;
    }
    let mut v: u64 = 0;
    let mut i: usize = from;
    assert(d.take(0) == Seq::<char>::empty());
    while i < n
        invariant
            d == cs@.skip(from as int),
            n == cs@.len(),
            from <= i <= n,
            forall|j: int| 0 <= j < i - from ==> is_digit(#[trigger] d[j]),
            digits_value(d.take(i - from)) == v,
            v <= max,
        decreases n - i,
    {
        let c = cs[i];
        assert(d[i - from] == c);
        assert(d.take(i - from + 1).drop_last() == d.take(i - from));
        if !('0' <= c && c <= '9') {
            return None;
        }
        let x: u64 = (c as u32 - '0' as u32) as u64;
        let wide: u128 = v as u128 * 10 + x as u128;
        if wide > max as u128 {
            proof {
                lemma_prefix_value(d, i - from + 1);
            }
            return None;
        }
        v = wide as u64;
        i = i + 1;
    }
    assert(d.take(n - from) == d);
    Some(v)
}

/// Parses an unsigned 64-bit number.
pub fn parse_u64(s: &str) -> (r: Option<u64>)
    ensures
        r == u64_value(s@),
{
    let cs = chars_of(s);
    if cs.len() > 0 && cs[0] == '+' {
        assert(cs@.skip(1) == cs@.drop_first());
        digits_from(&cs, 1, u64::MAX)
    } else {
        assert(cs@.skip(0) == cs@);
        digits_from(&cs, 0, u64::MAX)
    }
}

/// Parses a signed 32-bit number.
pub fn parse_i32(s: &str) -> (r: Option<i32>)
    ensures
        r == i32_value(s@),
{
    let cs = chars_of(s);
    if cs.len() > 0 && cs[0] == '-' {
        assert(cs@.skip(1) == cs@.drop_first());
        match digits_from(&cs, 1, 0x8000_0000) {
            Some(n) => Some((-(n as i64)) as i32),
            None => None,
        }
    } else if cs.len() > 0 && cs[0] == '+' {
        assert(cs@.skip(1) == cs@.drop_first());
        match digits_from(&cs, 1, 0x7fff_ffff) {
            Some(n) => Some(n as i32),
            None => None,
        }
    } else {
        assert(cs@.skip(0) == cs@);
        match digits_from(&cs, 0, 0x7fff_ffff) {
            Some(n) => Some(n as i32),
            None => None,
        }
    }
}

/// The digit character for `d`.
pub open spec fn digit_char(d: nat) -> char {
    (48 + d) as char
}

/// `n` in decimal, without leading zeros.
pub open spec fn decimal_of(n: nat) -> Seq<char>
    decreases n,
{
    if n < 10 {
        seq![digit_char(n)]
    } else {
        decimal_of(n / 10).push(digit_char(n % 10))
    }
}

/// One decimal digit as text.
fn digit_text(d: u64) -> (r: &'static str)
    requires
        d < 10,
    ensures
        r@ == seq![digit_char(d as nat)],
{
    proof {
        reveal_strlit("0");
        reveal_strlit("1");
        reveal_strlit("2");
        reveal_strlit("3");
        reveal_strlit("4");
        reveal_strlit("5");
        reveal_strlit("6");
        reveal_strlit("7");
        reveal_strlit("8");
        reveal_strlit("9");
    }
    if d == 0 {
        "0"
    } else if d == 1 {
        "1"
    } else if d == 2 {
        "2"
    } else if d == 3 {
        "3"
    } else if d == 4 {
        "4"
    } else if d == 5 {
        "5"
    } else if d == 6 {
        "6"
    } else if d == 7 {
        "7"
    } else if d == 8 {
        "8"
    } else {
        "9"
    }
}

/// Writes `n` in decimal.
pub fn decimal(n: u64) -> (r: String)
    ensures
        r@ == decimal_of(n as nat),
    decreases n,
{
    if n < 10 {
        digit_text(n).to_owned()
    } else {
        let mut r = decimal(n / 10);
        r.append(digit_text(n % 10));
        r
    }
}

/// A number written in decimal reads back as that number, and its text is
/// digits only.
pub proof fn lemma_decimal_reads_back(n: nat)
    ensures
        is_digits(decimal_of(n)),
        digits_value(decimal_of(n)) == n,
        unsigned_value(decimal_of(n)) == Some(n),
    decreases n,
{
    let t = decimal_of(n);
    if n < 10 {
        assert(t.drop_last() == Seq::<char>::empty());
        assert(digits_value(t.drop_last()) == 0);
        assert(t.last() == digit_char(n));
    } else {
        lemma_decimal_reads_back(n / 10);
        assert(t.drop_last() == decimal_of(n / 10));
        assert(t.last() == digit_char(n % 10));
    }
    assert(is_digit(t[0]));
}

/// `a` followed by `b`.
pub fn joined(a: &str, b: &str) -> (r: String)
    ensures
        r@ == a@ + b@,
{
    let mut r = a.to_owned();
    r.append(b);
    r
}

/// `n` in decimal, with a minus sign where it is negative.
pub open spec fn signed_decimal_of(n: int) -> Seq<char> {
    if n < 0 {
        "-"@ + decimal_of((-n) as nat)
    } else {
        decimal_of(n as nat)
    }
}

pub fn signed_decimal(n: i32) -> (r: String)
    ensures
        r@ == signed_decimal_of(n as int),
{
    let wide: i64 = n as i64;
    if wide < 0 {
        joined("-", decimal((-wide) as u64).as_str())
    } else {
        decimal(wide as u64)
    }
}

/// A text starts with a prefix exactly if it is the prefix and a rest, and what
/// is left of it is that rest.
pub proof fn law_stripped_and_put_back(s: Seq<char>, prefix: Seq<char>, rest: Seq<char>)
    ensures
        stripped(prefix + rest, prefix) == Some(rest),
        stripped(s, prefix) matches Some(r) ==> s == prefix + r,
{
    assert((prefix + rest).take(prefix.len() as int) =~= prefix);
    assert((prefix + rest).skip(prefix.len() as int) =~= rest);
    if stripped(s, prefix) is Some {
        assert(s =~= prefix + s.skip(prefix.len() as int));
    }
}

/// Whether every character is white space.
pub open spec fn all_white(s: Seq<char>) -> bool {
    forall|i: int| 0 <= i < s.len() ==> white_space(#[trigger] s[i])
}

proof fn lemma_trimmed_start(s: Seq<char>) -> (k: int)
    ensures
        0 <= k <= s.len(),
        trimmed_start(s) == s.skip(k),
        all_white(s.take(k)),
        trimmed_start(s).len() > 0 ==> !white_space(trimmed_start(s)[0]),
    decreases s.len(),
{
    if s.len() > 0 && white_space(s.first()) {
        let k = lemma_trimmed_start(s.drop_first());
        assert(s.drop_first().skip(k) =~= s.skip(k + 1));
        assert forall|i: int| 0 <= i < k + 1 implies white_space(#[trigger] s.take(k + 1)[i]) by {
            if i > 0 {
                assert(s.drop_first().take(k)[i - 1] == s[i]);
            }
        }
        k + 1
    } else {
        assert(s.skip(0) =~= s);
        0
    }
}

proof fn lemma_trimmed_end(s: Seq<char>) -> (k: int)
    ensures
        0 <= k <= s.len(),
        trimmed_end(s) == s.take(k),
        all_white(s.skip(k)),
        trimmed_end(s).len() > 0 ==> !white_space(trimmed_end(s).last()),
    decreases s.len(),
{
    if s.len() > 0 && white_space(s.last()) {
        let k = lemma_trimmed_end(s.drop_last());
        assert(s.drop_last().take(k) =~= s.take(k));
        assert forall|i: int| 0 <= i < s.len() - k implies white_space(#[trigger] s.skip(k)[i]) by {
            if i + k < s.len() - 1 {
                assert(s.drop_last().skip(k)[i] == s[i + k]);
            }
        }
        k
    } else {
        assert(s.take(s.len() as int) =~= s);
        s.len() as int
    }
}

/// Trimming takes off white space and nothing else: what is left is the part
/// between a white beginning and a white end, and neither begins nor ends with
/// white space. Trimming again changes nothing.
pub proof fn law_trimming_takes_off_white_space(s: Seq<char>)
    ensures
        exists|lo: int, hi: int|
            0 <= lo <= hi <= s.len() && trimmed(s) == #[trigger] s.subrange(lo, hi) && all_white(
                s.take(lo),
            ) && all_white(s.skip(hi)),
        trimmed(s).len() > 0 ==> !white_space(trimmed(s)[0]) && !white_space(trimmed(s).last()),
        trimmed(trimmed(s)) == trimmed(s),
{
    let lo = lemma_trimmed_start(s);
    let t = trimmed_start(s);
    let k = lemma_trimmed_end(t);
    let hi = lo + k;
    assert(trimmed(s) =~= s.subrange(lo, hi));
    assert forall|i: int| 0 <= i < s.len() - hi implies white_space(#[trigger] s.skip(hi)[i]) by {
        assert(t.skip(k)[i] == s[i + hi]);
    }
    assert(trimmed(s).len() > 0 ==> trimmed(s)[0] == t[0]);
}

/// What is left of a text without its trailing `c` does not end in one, and the
/// text is that followed by nothing but `c`.
pub proof fn law_trailing_characters_come_off(s: Seq<char>, c: char)
    ensures
        ({
            let r = trimmed_end_of(s, c);
            &&& r.len() <= s.len() && r == s.take(r.len() as int)
            &&& r.len() > 0 ==> r.last() != c
            &&& forall|i: int| r.len() <= i < s.len() ==> #[trigger] s[i] == c
        }),
    decreases s.len(),
{
    let r = trimmed_end_of(s, c);
    if s.len() > 0 && s.last() == c {
        law_trailing_characters_come_off(s.drop_last(), c);
        assert(s.drop_last().take(r.len() as int) =~= s.take(r.len() as int));
        assert forall|i: int| r.len() <= i < s.len() implies #[trigger] s[i] == c by {
            if i < s.len() - 1 {
                assert(s.drop_last()[i] == s[i]);
            }
        }
    } else {
        assert(s.take(s.len() as int) =~= s);
    }
}

/// A suffix comes off once for every time it stands there, and what is left
/// does not end in it.
pub proof fn law_suffixes_come_off(s: Seq<char>, suffix: Seq<char>)
    requires
        suffix.len() > 0,
    ensures
        trimmed_suffix(s + suffix, suffix) == trimmed_suffix(s, suffix),
        !(exists|t: Seq<char>| trimmed_suffix(s, suffix) == #[trigger] (t + suffix)),
        !(exists|t: Seq<char>| s == #[trigger] (t + suffix)) ==> trimmed_suffix(s, suffix) == s,
    decreases s.len(),
{
    let all = s + suffix;
    assert(all.skip(all.len() - suffix.len()) =~= suffix);
    assert(all.take(all.len() - suffix.len()) =~= s);
    if 0 < suffix.len() <= s.len() && s.skip(s.len() - suffix.len()) == suffix {
        law_suffixes_come_off(s.take(s.len() - suffix.len()), suffix);
        assert(s =~= s.take(s.len() - suffix.len()) + suffix);
    } else {
        assert forall|t: Seq<char>| s == #[trigger] (t + suffix) implies false by {
            assert(s.skip(s.len() - suffix.len()) =~= suffix);
        }
    }
}

/// Pieces with a separator between each two.
pub open spec fn joined_by(ps: Seq<Seq<char>>, sep: char) -> Seq<char>
    decreases ps.len(),
{
    if ps.len() == 0 {
        Seq::empty()
    } else if ps.len() == 1 {
        ps[0]
    } else {
        joined_by(ps.drop_last(), sep) + seq![sep] + ps.last()
    }
}

/// Splitting loses nothing: the pieces, joined again, are the text, and none of
/// them holds a separator.
pub proof fn law_pieces_join_back(s: Seq<char>, sep: char)
    ensures
        pieces(s, sep).len() > 0,
        joined_by(pieces(s, sep), sep) == s,
        forall|i: int, j: int|
            0 <= i < pieces(s, sep).len() && 0 <= j < pieces(s, sep)[i].len()
                ==> #[trigger] pieces(s, sep)[i][j] != sep,
    decreases s.len(),
{
    let ps = pieces(s, sep);
    if s.len() == 0 {
        assert(joined_by(ps, sep) =~= s);
    } else {
        let before = pieces(s.drop_last(), sep);
        law_pieces_join_back(s.drop_last(), sep);
        assert(s =~= s.drop_last().push(s.last()));
        if s.last() == sep {
            assert(ps.drop_last() =~= before);
            assert(joined_by(ps, sep) =~= s);
            assert forall|i: int, j: int| 0 <= i < ps.len() && 0 <= j < ps[i].len() implies
                #[trigger] ps[i][j] != sep by {
                if i < before.len() {
                    assert(before[i][j] != sep);
                }
            }
        } else {
            assert(ps.drop_last() =~= before.drop_last());
            assert(ps.last() == before.last().push(s.last()));
            if before.len() == 1 {
                assert(ps.len() == 1);
                assert(joined_by(ps, sep) =~= s);
            } else {
                assert(joined_by(before, sep) == joined_by(before.drop_last(), sep) + seq![sep]
                    + before.last());
                assert(joined_by(ps, sep) =~= s);
            }
            assert forall|i: int, j: int| 0 <= i < ps.len() && 0 <= j < ps[i].len() implies
                #[trigger] ps[i][j] != sep by {
                if i < before.len() - 1 {
                    assert(before[i][j] != sep);
                } else if j < before.last().len() {
                    assert(before[before.len() - 1][j] != sep);
                }
            }
        }
    }
}

/// What stands before a separator is a piece of its own.
proof fn lemma_first_piece(p: Seq<char>, s: Seq<char>, sep: char)
    requires
        forall|i: int| 0 <= i < p.len() ==> #[trigger] p[i] != sep,
    ensures
        pieces(p + seq![sep] + s, sep) == seq![p] + pieces(s, sep),
    decreases s.len(),
{
    let all = p + seq![sep] + s;
    if s.len() == 0 {
        assert(all.drop_last() =~= p);
        lemma_plain_piece(p, sep);
        assert(pieces(all, sep) =~= seq![p] + pieces(s, sep));
    } else {
        lemma_first_piece(p, s.drop_last(), sep);
        lemma_pieces_nonempty(s.drop_last(), sep);
        assert(all.drop_last() =~= p + seq![sep] + s.drop_last());
        assert(pieces(all, sep) =~= seq![p] + pieces(s, sep));
    }
}

proof fn lemma_plain_piece(p: Seq<char>, sep: char)
    requires
        forall|i: int| 0 <= i < p.len() ==> #[trigger] p[i] != sep,
    ensures
        pieces(p, sep) == seq![p],
    decreases p.len(),
{
    if p.len() > 0 {
        let rest = p.drop_last();
        assert forall|i: int| 0 <= i < rest.len() implies #[trigger] rest[i] != sep by {
            assert(p[i] == rest[i]);
        }
        lemma_plain_piece(rest, sep);
        assert(p.last() == p[p.len() - 1]);
        assert(rest.push(p.last()) =~= p);
        assert(pieces(p, sep) =~= seq![p]);
    } else {
        assert(p =~= Seq::<char>::empty());
    }
}

/// Lines end at a line feed, or at a carriage return and a line feed; a last
/// line needs neither, and there is none where nothing is left.
pub proof fn law_lines_end_at_line_feeds(line: Seq<char>, s: Seq<char>)
    requires
        forall|i: int| 0 <= i < line.len() ==> #[trigger] line[i] != '\n',
    ensures
        line.len() == 0 || line.last() != '\r' ==> lines_of(line + seq!['\n'] + s) == seq![line]
            + lines_of(s),
        lines_of(line + seq!['\r', '\n'] + s) == seq![line] + lines_of(s),
        line.len() > 0 ==> lines_of(line) == seq![line],
        lines_of(Seq::<char>::empty()).len() == 0,
{
    let feed = line + seq!['\n'] + s;
    let returned = line.push('\r');
    let both = line + seq!['\r', '\n'] + s;
    lemma_pieces_nonempty(s, '\n');
    lemma_first_piece(line, s, '\n');
    lemma_first_piece(returned, s, '\n');
    assert(both =~= returned + seq!['\n'] + s);
    assert(returned.drop_last() =~= line);
    let rest = pieces(s, '\n');
    assert((seq![line] + rest).drop_last() =~= seq![line] + rest.drop_last());
    assert((seq![returned] + rest).drop_last() =~= seq![returned] + rest.drop_last());
    assert((seq![line] + rest).last() == rest.last());
    assert((seq![returned] + rest).last() == rest.last());
    if line.len() == 0 || line.last() != '\r' {
        assert(lines_of(feed) =~= seq![line] + lines_of(s));
    }
    assert(lines_of(both) =~= seq![line] + lines_of(s));
    lemma_plain_piece(line, '\n');
    assert(seq![line].drop_last() =~= Seq::<Seq<char>>::empty());
    assert(line.len() > 0 ==> lines_of(line) =~= seq![line]);
    assert(lines_of(Seq::<char>::empty()).len() == 0);
}

/// White space parts words, however much of it there is, and nothing else does.
pub proof fn law_white_space_parts_words(a: Seq<char>, c: char, b: Seq<char>, w: Seq<char>)
    requires
        white_space(c),
        w.len() > 0,
        forall|i: int| 0 <= i < w.len() ==> !white_space(#[trigger] w[i]),
    ensures
        words_of(a + seq![c] + b) == words_of(a) + words_of(b),
        words_of(w) == seq![w],
        words_of(Seq::<char>::empty()).len() == 0,
    decreases b.len(), w.len(),
{
    let all = a + seq![c] + b;
    if b.len() == 0 {
        assert(all.drop_last() =~= a);
        assert(words_of(all) =~= words_of(a) + words_of(b));
    } else {
        law_white_space_parts_words(a, c, b.drop_last(), w);
        assert(all.drop_last() =~= a + seq![c] + b.drop_last());
        assert(all.last() == b.last());
        if !white_space(b.last()) {
            if b.len() == 1 {
                assert(all[all.len() - 2] == c);
            } else {
                assert(all[all.len() - 2] == b[b.len() - 2]);
                if !white_space(b[b.len() - 2]) {
                    lemma_words_nonempty(b.drop_last());
                }
            }
        }
        assert(words_of(all) =~= words_of(a) + words_of(b));
    }
    lemma_plain_word(w);
}

proof fn lemma_words_nonempty(s: Seq<char>)
    requires
        s.len() > 0,
        !white_space(s.last()),
    ensures
        words_of(s).len() > 0,
{
}

proof fn lemma_plain_word(w: Seq<char>)
    requires
        w.len() > 0,
        forall|i: int| 0 <= i < w.len() ==> !white_space(#[trigger] w[i]),
    ensures
        words_of(w) == seq![w],
    decreases w.len(),
{
    let rest = w.drop_last();
    assert(w.last() == w[w.len() - 1]);
    if rest.len() == 0 {
        assert(w =~= seq![w[0]]);
        assert(words_of(rest) =~= Seq::<Seq<char>>::empty());
        assert(words_of(w) =~= seq![w]);
    } else {
        assert forall|i: int| 0 <= i < rest.len() implies !white_space(#[trigger] rest[i]) by {
            assert(w[i] == rest[i]);
        }
        lemma_plain_word(rest);
        assert(!white_space(w[w.len() - 2]));
        assert(rest.push(w.last()) =~= w);
        assert(seq![rest].drop_last() =~= Seq::<Seq<char>>::empty());
        assert(words_of(w) =~= seq![w]);
    }
}

/// A number is digits, with a plus sign or without. Leading zeros do not
/// matter, every digit more is worth ten times what stood before and itself,
/// and a number too large for sixty-four bits is none.
pub proof fn law_numbers_are_read_digit_by_digit(d: Seq<char>, c: char)
    requires
        is_digits(d),
        is_digit(c),
    ensures
        u64_value(seq!['+'] + d) == u64_value(d),
        u64_value(d) is Some <==> digits_value(d) <= u64::MAX,
        u64_value(d) matches Some(n) ==> n == digits_value(d),
        digits_value(d.push(c)) == 10 * digits_value(d) + (c as int - '0' as int),
        digits_value(seq!['0'] + d) == digits_value(d),
{
    assert((seq!['+'] + d).drop_first() =~= d);
    assert(is_digit(d[0]));
    assert(d.push(c).drop_last() =~= d);
    lemma_leading_zero(d);
}

proof fn lemma_leading_zero(d: Seq<char>)
    ensures
        digits_value(seq!['0'] + d) == digits_value(d),
    decreases d.len(),
{
    let z = seq!['0'] + d;
    if d.len() == 0 {
        assert(z.drop_last() =~= Seq::<char>::empty());
        reveal_with_fuel(digits_value, 2);
    } else {
        assert(z.drop_last() =~= seq!['0'] + d.drop_last());
        lemma_leading_zero(d.drop_last());
    }
}

/// What is no string of digits, with at most a plus sign before it, is no
/// number.
pub proof fn law_other_texts_are_no_numbers(s: Seq<char>, i: int)
    ensures
        0 <= i < s.len() && !is_digit(s[i]) && !(i == 0 && s[0] == '+') ==> u64_value(s) is None,
        s.len() == 0 ==> u64_value(s) is None,
        s == seq!['+'] ==> u64_value(s) is None,
{
    if 0 <= i < s.len() && !is_digit(s[i]) && !(i == 0 && s[0] == '+') && u64_value(s) is Some {
        if s[0] == '+' {
            assert(is_digit(s.drop_first()[i - 1]));
        } else {
            assert(is_digit(s[i]));
        }
    }
    if s == seq!['+'] {
        assert(s.drop_first() =~= Seq::<char>::empty());
    }
}

/// A signed number written in decimal reads back.
pub proof fn law_signed_numbers_read_back(n: i32)
    ensures
        i32_value(signed_decimal_of(n as int)) == Some(n),
{
    let m = if n < 0 {
        -(n as int)
    } else {
        n as int
    };
    let d = decimal_of(m as nat);
    lemma_decimal_reads_back(m as nat);
    assert(is_digit(d[0]));
    if n < 0 {
        reveal_strlit("-");
        assert(("-"@ + d).drop_first() =~= d);
        assert(("-"@ + d)[0] == '-');
    }
}

/// Of the characters below 128, the blank and those from the tab to the carriage
/// return are white space, and no other.
pub proof fn law_plain_characters_are_no_white_space(c: char)
    requires
        (c as int) < 128,
    ensures
        white_space(c) <==> c == ' ' || '\t' as int <= c as int <= '\r' as int,
{
}

}
