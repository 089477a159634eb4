//! Verified string helpers shared across the crate: equality, ASCII
//! trimming and lower-casing, decimal rendering, substring search, and
//! splitting on whitespace, lines or an arbitrary separator.

use vstd::prelude::*;
use vstd::string::StrSliceExecFns;

verus! {

/// Relies on `String::push`: appends exactly one character.
pub assume_specification[ String::push ](s: &mut String, c: char)
    ensures
        final(s)@ == old(s)@.push(c),
;

/// Equality of two string slices, pinned to equality of their character
/// sequences.
pub fn str_eq(a: &str, b: &str) -> (r: bool)
    ensures
        r == (a@ == b@),
{
    let sa: String = a.to_owned();
    let sb: String = b.to_owned();
    sa == sb
}

/// ASCII whitespace.
pub open spec fn is_ascii_space(c: char) -> bool {
    c == ' ' || c == '\t' || c == '\n' || c == '\r'
}

/// The sequence with leading ASCII whitespace removed.
pub open spec fn spec_trim_start(s: Seq<char>) -> Seq<char>
    decreases s.len(),
{
    if s.len() > 0 && is_ascii_space(s[0]) {
        spec_trim_start(s.drop_first())
    } else {
        s
    }
}

/// The sequence with trailing ASCII whitespace removed.
pub open spec fn spec_trim_end(s: Seq<char>) -> Seq<char>
    decreases s.len(),
{
    if s.len() > 0 && is_ascii_space(s[s.len() - 1]) {
        spec_trim_end(s.drop_last())
    } else {
        s
    }
}

/// The sequence with ASCII whitespace removed from both ends.
pub open spec fn spec_trim(s: Seq<char>) -> Seq<char> {
    spec_trim_end(spec_trim_start(s))
}

/// Whether the character at index `i` is ASCII whitespace.
pub fn ascii_space_at(s: &str, i: usize) -> (r: bool)
    requires
        i < s@.len(),
    ensures
        r == is_ascii_space(s@[i as int]),
{
    let c = s.get_char(i);
    c == ' ' || c == '\t' || c == '\n' || c == '\r'
}

/// The string with ASCII whitespace trimmed from both ends.
pub fn trim_of(s: &str) -> (r: String)
    ensures
        r@ == spec_trim(s@),
{
    let n = s.unicode_len();
    let mut a: usize = 0;
    proof {
        assert(s@.subrange(0, n as int) =~= s@);
    }
    while a < n && ascii_space_at(s, a)
        invariant
            a <= n,
            n == s@.len(),
            spec_trim_start(s@) == spec_trim_start(s@.subrange(a as int, n as int)),
        decreases n - a,
    {
        proof {
            let sub = s@.subrange(a as int, n as int);
            assert(sub[0] == s@[a as int]);
            assert(sub.drop_first() =~= s@.subrange(a as int + 1, n as int));
        }
        a = a + 1;
    }
    proof {
        let sub = s@.subrange(a as int, n as int);
        if a == n {
            assert(sub.len() == 0);
        }
        assert(spec_trim_start(sub) == sub);
    }
    let mut b: usize = n;
    while b > a && ascii_space_at(s, b - 1)
        invariant
            a <= b <= n,
            n == s@.len(),
            spec_trim_end(s@.subrange(a as int, n as int)) == spec_trim_end(
                s@.subrange(a as int, b as int),
            ),
        decreases b,
    {
        proof {
            let sub = s@.subrange(a as int, b as int);
            assert(sub[sub.len() - 1] == s@[b as int - 1]);
            assert(sub.drop_last() =~= s@.subrange(a as int, b as int - 1));
        }
        b = b - 1;
    }
    proof {
        let sub = s@.subrange(a as int, b as int);
        if a == b {
            assert(sub.len() == 0);
        }
        assert(spec_trim_end(sub) == sub);
        assert(spec_trim(s@) == s@.subrange(a as int, b as int));
    }
    s.substring_char(a, b).to_owned()
}

/// The longest whitespace-free prefix.
pub open spec fn spec_take_word(s: Seq<char>) -> Seq<char>
    decreases s.len(),
{
    if s.len() == 0 || is_ascii_space(s[0]) {
        Seq::empty()
    } else {
        seq![s[0]] + spec_take_word(s.drop_first())
    }
}

/// What remains after the longest whitespace-free prefix.
pub open spec fn spec_after_word(s: Seq<char>) -> Seq<char>
    decreases s.len(),
{
    if s.len() == 0 || is_ascii_space(s[0]) {
        s
    } else {
        spec_after_word(s.drop_first())
    }
}

proof fn lemma_after_word_shrinks(s: Seq<char>)
    requires
        s.len() > 0,
        !is_ascii_space(s[0]),
    ensures
        spec_after_word(s).len() < s.len(),
    decreases s.len(),
{
    if s.drop_first().len() > 0 && !is_ascii_space(s.drop_first()[0]) {
        lemma_after_word_shrinks(s.drop_first());
    } else {
        assert(spec_after_word(s.drop_first()) == s.drop_first());
    }
}

/// The whitespace-separated words of a sequence, in order, each
/// non-empty.
pub open spec fn spec_words(s: Seq<char>) -> Seq<Seq<char>>
    decreases s.len(),
    when s.len() >= 0
    via spec_words_decreases
{
    if s.len() == 0 {
        Seq::empty()
    } else if is_ascii_space(s[0]) {
        spec_words(s.drop_first())
    } else {
        seq![spec_take_word(s)] + spec_words(spec_after_word(s))
    }
}

#[via_fn]
proof fn spec_words_decreases(s: Seq<char>) {
    if s.len() > 0 && !is_ascii_space(s[0]) {
        lemma_after_word_shrinks(s);
    }
}

/// A word spans `s[start .. k]` exactly when its characters are
/// whitespace-free and the span is ended by whitespace or the end of the
/// sequence.
pub proof fn lemma_word_split(s: Seq<char>, k: int)
    requires
        0 <= k <= s.len(),
        forall|j: int| 0 <= j < k ==> !is_ascii_space(s[j]),
        k < s.len() ==> is_ascii_space(s[k]),
    ensures
        spec_take_word(s) == s.subrange(0, k),
        spec_after_word(s) == s.subrange(k, s.len() as int),
    decreases k,
{
    if k == 0 {
        assert(s.subrange(0, 0) =~= Seq::<char>::empty());
        assert(s.subrange(0, s.len() as int) =~= s);
    } else {
        assert(!is_ascii_space(s[0]));
        assert(forall|j: int| 0 <= j < k - 1 ==> s.drop_first()[j] == s[j + 1]);
        lemma_word_split(s.drop_first(), k - 1);
        assert(s.drop_first().subrange(0, k - 1) =~= s.subrange(1, k));
        assert(s.drop_first().subrange(k - 1, s.drop_first().len() as int) =~= s.subrange(
            k,
            s.len() as int,
        ));
        assert(seq![s[0]] + s.subrange(1, k) =~= s.subrange(0, k));
    }
}

/// The character for one decimal digit.
pub open spec fn digit_char(d: nat) -> char {
    if d == 0 {
        '0'
    } else if d == 1 {
        '1'
    } else if d == 2 {
        '2'
    } else if d == 3 {
        '3'
    } else if d == 4 {
        '4'
    } else if d == 5 {
        '5'
    } else if d == 6 {
        '6'
    } else if d == 7 {
        '7'
    } else if d == 8 {
        '8'
    } else {
        '9'
    }
}

/// The decimal rendering of a number, most significant digit first, with
/// no leading zeroes (`0` renders as `"0"`).
pub open spec fn spec_dec(n: nat) -> Seq<char>
    decreases n,
{
    if n < 10 {
        seq![digit_char(n)]
    } else {
        spec_dec(n / 10).push(digit_char(n % 10))
    }
}

spec fn rev_digit_chars(ds: Seq<u64>) -> Seq<char>
    decreases ds.len(),
{
    if ds.len() == 0 {
        Seq::empty()
    } else {
        seq![digit_char(ds.last() as nat)] + rev_digit_chars(ds.drop_last())
    }
}

proof fn lemma_rev_digit_chars_index(ds: Seq<u64>)
    ensures
        rev_digit_chars(ds).len() == ds.len(),
        forall|i: int|
            0 <= i < ds.len() ==> rev_digit_chars(ds)[i] == digit_char(
                ds[ds.len() - 1 - i] as nat,
            ),
    decreases ds.len(),
{
    if ds.len() > 0 {
        lemma_rev_digit_chars_index(ds.drop_last());
        assert(forall|j: int| 0 <= j < ds.len() - 1 ==> ds.drop_last()[j] == ds[j]);
    }
}

fn digit_str(d: u64) -> (r: &'static str)
    requires
        d <= 9,
    ensures
        r@ == seq![digit_char(d as nat)],
{
    proof {
        reveal_strlit("0");
        reveal_strlit("1");
        reveal_strlit("2");
        reveal_strlit("3");
        reveal_strlit("4");
        reveal_strlit("5");
        reveal_strlit("6");
        reveal_strlit("7");
        reveal_strlit("8");
        reveal_strlit("9");
    }
    let r: &'static str = if d == 0 {
        "0"
    } else if d == 1 {
        "1"
    } else if d == 2 {
        "2"
    } else if d == 3 {
        "3"
    } else if d == 4 {
        "4"
    } else if d == 5 {
        "5"
    } else if d == 6 {
        "6"
    } else if d == 7 {
        "7"
    } else if d == 8 {
        "8"
    } else {
        "9"
    };
    proof {
        assert(r@ =~= seq![digit_char(d as nat)]);
    }
    r
}

/// The decimal rendering of `n`.
pub fn u64_to_string(n: u64) -> (r: String)
    ensures
        r@ == spec_dec(n as nat),
{
    let mut digits: Vec<u64> = Vec::new();
    let mut m = n;
    proof {
        assert(rev_digit_chars(digits@) =~= Seq::<char>::empty());
        assert(spec_dec(n as nat) + rev_digit_chars(digits@) =~= spec_dec(n as nat));
    }
    while m >= 10
        invariant
            spec_dec(n as nat) == spec_dec(m as nat) + rev_digit_chars(digits@),
            forall|i: int| 0 <= i < digits@.len() ==> digits@[i] < 10,
        decreases m,
    {
        let d = m % 10;
        let ghost ds0 = digits@;
        digits.push(d);
        m = m / 10;
        proof {
            assert(digits@.last() == d);
            assert(digits@.drop_last() =~= ds0);
            assert(rev_digit_chars(digits@) == seq![digit_char(d as nat)] + rev_digit_chars(ds0));
            assert(spec_dec((m * 10 + d) as nat) == spec_dec(m as nat).push(
                digit_char(d as nat),
            ));
            assert(spec_dec(m as nat).push(digit_char(d as nat)) + rev_digit_chars(ds0)
                =~= spec_dec(m as nat) + (seq![digit_char(d as nat)] + rev_digit_chars(ds0)));
        }
    }
    let ghost ds0 = digits@;
    digits.push(m);
    proof {
        assert(digits@.last() == m);
        assert(digits@.drop_last() =~= ds0);
        assert(spec_dec(m as nat) =~= seq![digit_char(m as nat)]);
        assert(seq![digit_char(m as nat)] + rev_digit_chars(ds0) =~= rev_digit_chars(digits@));
        lemma_rev_digit_chars_index(digits@);
    }
    let mut out = String::new();
    let mut k = digits.len();
    let ghost total = digits@.len();
    while k > 0
        invariant
            k <= total,
            total == digits@.len(),
            forall|i: int| 0 <= i < digits@.len() ==> digits@[i] < 10,
            out@ =~= rev_digit_chars(digits@).take(total - k),
        decreases k,
    {
        let piece = digit_str(digits[k - 1]);
        out.append(piece);
        k = k - 1;
        proof {
            lemma_rev_digit_chars_index(digits@);
            assert(rev_digit_chars(digits@)[total - k - 1] == digit_char(
                digits@[k as int] as nat,
            ));
            assert(rev_digit_chars(digits@).take(total - k) =~= rev_digit_chars(digits@).take(
                total - k - 1,
            ).push(rev_digit_chars(digits@)[total - k - 1]));
        }
    }
    proof {
        assert(rev_digit_chars(digits@).take(total - 0) =~= rev_digit_chars(digits@));
    }
    out
}

/// The decimal rendering of `n`.
pub fn usize_to_string(n: usize) -> (r: String)
    ensures
        r@ == spec_dec(n as nat),
{
    u64_to_string(n as u64)
}

/// The views of a vector of strings.
pub open spec fn views_of(ws: Seq<String>) -> Seq<Seq<char>> {
    ws.map_values(|w: String| w@)
}

/// The prefix before the first occurrence of `sep`.
pub open spec fn spec_take_until(s: Seq<char>, sep: char) -> Seq<char>
    decreases s.len(),
{
    if s.len() == 0 || s[0] == sep {
        Seq::empty()
    } else {
        seq![s[0]] + spec_take_until(s.drop_first(), sep)
    }
}

/// The rest of the sequence from the first occurrence of `sep` on.
pub open spec fn spec_after_until(s: Seq<char>, sep: char) -> Seq<char>
    decreases s.len(),
{
    if s.len() == 0 || s[0] == sep {
        s
    } else {
        spec_after_until(s.drop_first(), sep)
    }
}

proof fn lemma_after_until_le(s: Seq<char>, sep: char)
    ensures
        spec_after_until(s, sep).len() <= s.len(),
    decreases s.len(),
{
    if !(s.len() == 0 || s[0] == sep) {
        lemma_after_until_le(s.drop_first(), sep);
    }
}

/// The pieces of `s` between occurrences of `sep`: always at least one
/// piece, and empty pieces are kept.
pub open spec fn spec_split_on(s: Seq<char>, sep: char) -> Seq<Seq<char>>
    decreases s.len(),
    when s.len() >= 0
    via spec_split_on_decreases
{
    let head = spec_take_until(s, sep);
    let tail = spec_after_until(s, sep);
    if tail.len() == 0 {
        seq![head]
    } else {
        seq![head] + spec_split_on(tail.drop_first(), sep)
    }
}

#[via_fn]
proof fn spec_split_on_decreases(s: Seq<char>, sep: char) {
    lemma_after_until_le(s, sep);
}

/// A piece spans `s[0 .. k]` exactly when its characters are free of the
/// separator and the span is ended by the separator or the end of the
/// sequence.
pub proof fn lemma_until_split(s: Seq<char>, sep: char, k: int)
    requires
        0 <= k <= s.len(),
        forall|j: int| 0 <= j < k ==> s[j] != sep,
        k < s.len() ==> s[k] == sep,
    ensures
        spec_take_until(s, sep) == s.subrange(0, k),
        spec_after_until(s, sep) == s.subrange(k, s.len() as int),
    decreases k,
{
    if k == 0 {
        assert(s.subrange(0, 0) =~= Seq::<char>::empty());
        assert(s.subrange(0, s.len() as int) =~= s);
    } else {
        assert(s[0] != sep);
        assert(forall|j: int| 0 <= j < k - 1 ==> s.drop_first()[j] == s[j + 1]);
        lemma_until_split(s.drop_first(), sep, k - 1);
        assert(s.drop_first().subrange(0, k - 1) =~= s.subrange(1, k));
        assert(s.drop_first().subrange(k - 1, s.drop_first().len() as int) =~= s.subrange(
            k,
            s.len() as int,
        ));
        assert(seq![s[0]] + s.subrange(1, k) =~= s.subrange(0, k));
    }
}

/// The piece with one trailing carriage return removed.
pub open spec fn spec_strip_cr(s: Seq<char>) -> Seq<char> {
    if s.len() > 0 && s[s.len() - 1] == '\r' {
        s.drop_last()
    } else {
        s
    }
}

/// The lines of a text: pieces between newlines, each with a trailing
/// carriage return removed, and no final empty line for a text that ends
/// in a newline (matching what `str::lines` yields).
pub open spec fn spec_lines(s: Seq<char>) -> Seq<Seq<char>> {
    let ps = spec_split_on(s, '\n');
    let kept = if ps.last().len() == 0 {
        ps.drop_last()
    } else {
        ps
    };
    kept.map_values(|p: Seq<char>| spec_strip_cr(p))
}

/// Split a string into its lines.
pub fn split_lines(s: &str) -> (r: Vec<String>)
    ensures
        views_of(r@) == spec_lines(s@),
{
    let n = s.unicode_len();
    let mut out: Vec<String> = Vec::new();
    let ghost mut raw: Seq<Seq<char>> = Seq::empty();
    let mut start: usize = 0;
    let mut i: usize = 0;
    proof {
        assert(s@.subrange(0, n as int) =~= s@);
        assert(Seq::<Seq<char>>::empty() + spec_split_on(s@, '\n') =~= spec_split_on(s@, '\n'));
        assert(views_of(out@) =~= raw.map_values(|p: Seq<char>| spec_strip_cr(p)));
    }
    while i < n
        invariant
            start <= i <= n,
            n == s@.len(),
            forall|j: int| start <= j < i ==> s@[j] != '\n',
            spec_split_on(s@, '\n') == raw + spec_split_on(
                s@.subrange(start as int, n as int),
                '\n',
            ),
            views_of(out@) == raw.map_values(|p: Seq<char>| spec_strip_cr(p)),
        decreases n - i,
    {
        if s.get_char(i) == '\n' {
            let ghost sub = s@.subrange(start as int, n as int);
            let ghost piece = s@.subrange(start as int, i as int);
            proof {
                assert(forall|j: int| 0 <= j < i - start ==> sub[j] == s@[j + start]);
                assert(sub[i - start as int] == s@[i as int]);
                lemma_until_split(sub, '\n', i as int - start as int);
                assert(sub.subrange(0, i as int - start as int) =~= piece);
                assert(sub.subrange(i as int - start as int, sub.len() as int) =~= s@.subrange(
                    i as int,
                    n as int,
                ));
                assert(s@.subrange(i as int, n as int).drop_first() =~= s@.subrange(
                    i as int + 1,
                    n as int,
                ));
            }
            let end: usize = if i > start && s.get_char(i - 1) == '\r' {
                i - 1
            } else {
                i
            };
            proof {
                if i > start && s@[i as int - 1] == '\r' {
                    assert(piece[piece.len() - 1] == s@[i as int - 1]);
                    assert(piece.drop_last() =~= s@.subrange(start as int, i as int - 1));
                }
                assert(spec_strip_cr(piece) == s@.subrange(start as int, end as int));
            }
            let ghost out0 = out@;
            let w = s.substring_char(start, end).to_owned();
            out.push(w);
            proof {
                let f = |p: Seq<char>| spec_strip_cr(p);
                assert(raw.push(piece).map_values(f) =~= raw.map_values(f).push(
                    spec_strip_cr(piece),
                ));
                assert(views_of(out0.push(w)) =~= views_of(out0).push(w@));
                raw = raw.push(piece);
                assert(raw + spec_split_on(s@.subrange(i as int + 1, n as int), '\n')
                    =~= raw.drop_last() + (seq![piece] + spec_split_on(
                    s@.subrange(i as int + 1, n as int),
                    '\n',
                )));
            }
            i = i + 1;
            start = i;
        } else {
            i = i + 1;
        }
    }
    let ghost sub = s@.subrange(start as int, n as int);
    proof {
        assert(forall|j: int| 0 <= j < n - start ==> sub[j] == s@[j + start]);
        lemma_until_split(sub, '\n', n as int - start as int);
        assert(sub.subrange(0, n as int - start as int) =~= sub);
        assert(sub.subrange(n as int - start as int, sub.len() as int).len() == 0);
        assert(spec_split_on(sub, '\n') =~= seq![sub]);
        assert(spec_split_on(s@, '\n') == raw.push(sub));
        assert(raw.push(sub).last() == sub);
        assert(raw.push(sub).drop_last() =~= raw);
    }
    if start < n {
        let end: usize = if s.get_char(n - 1) == '\r' {
            n - 1
        } else {
            n
        };
        proof {
            if s@[n as int - 1] == '\r' {
                assert(sub[sub.len() - 1] == s@[n as int - 1]);
                assert(sub.drop_last() =~= s@.subrange(start as int, n as int - 1));
            }
            assert(spec_strip_cr(sub) == s@.subrange(start as int, end as int));
        }
        let ghost out0 = out@;
        let w = s.substring_char(start, end).to_owned();
        out.push(w);
        proof {
            let f = |p: Seq<char>| spec_strip_cr(p);
            assert(raw.push(sub).map_values(f) =~= raw.map_values(f).push(spec_strip_cr(sub)));
            assert(views_of(out0.push(w)) =~= views_of(out0).push(w@));
        }
    } else {
        proof {
            assert(sub.len() == 0);
        }
    }
    out
}

/// Split a string at every occurrence of `sep`, keeping empty pieces.
pub fn split_on_char(s: &str, sep: char) -> (r: Vec<String>)
    ensures
        views_of(r@) == spec_split_on(s@, sep),
{
    let n = s.unicode_len();
    let mut out: Vec<String> = Vec::new();
    let ghost mut raw: Seq<Seq<char>> = Seq::empty();
    let mut start: usize = 0;
    let mut i: usize = 0;
    proof {
        assert(s@.subrange(0, n as int) =~= s@);
        assert(Seq::<Seq<char>>::empty() + spec_split_on(s@, sep) =~= spec_split_on(s@, sep));
        assert(views_of(out@) =~= raw);
    }
    while i < n
        invariant
            start <= i <= n,
            n == s@.len(),
            forall|j: int| start <= j < i ==> s@[j] != sep,
            spec_split_on(s@, sep) == raw + spec_split_on(s@.subrange(start as int, n as int), sep),
            views_of(out@) == raw,
        decreases n - i,
    {
        if s.get_char(i) == sep {
            let ghost sub = s@.subrange(start as int, n as int);
            let ghost piece = s@.subrange(start as int, i as int);
            proof {
                assert(forall|j: int| 0 <= j < i - start ==> sub[j] == s@[j + start]);
                assert(sub[i - start as int] == s@[i as int]);
                lemma_until_split(sub, sep, i as int - start as int);
                assert(sub.subrange(0, i as int - start as int) =~= piece);
                assert(sub.subrange(i as int - start as int, sub.len() as int) =~= s@.subrange(
                    i as int,
                    n as int,
                ));
                assert(s@.subrange(i as int, n as int).drop_first() =~= s@.subrange(
                    i as int + 1,
                    n as int,
                ));
            }
            let ghost out0 = out@;
            let w = s.substring_char(start, i).to_owned();
            out.push(w);
            proof {
                assert(views_of(out0.push(w)) =~= views_of(out0).push(w@));
                raw = raw.push(piece);
                assert(raw + spec_split_on(s@.subrange(i as int + 1, n as int), sep)
                    =~= raw.drop_last() + (seq![piece] + spec_split_on(
                    s@.subrange(i as int + 1, n as int),
                    sep,
                )));
            }
            i = i + 1;
            start = i;
        } else {
            i = i + 1;
        }
    }
    let ghost sub = s@.subrange(start as int, n as int);
    proof {
        assert(forall|j: int| 0 <= j < n - start ==> sub[j] == s@[j + start]);
        lemma_until_split(sub, sep, n as int - start as int);
        assert(sub.subrange(0, n as int - start as int) =~= sub);
        assert(sub.subrange(n as int - start as int, sub.len() as int).len() == 0);
        assert(spec_split_on(sub, sep) =~= seq![sub]);
    }
    let ghost out0 = out@;
    let w = s.substring_char(start, n).to_owned();
    out.push(w);
    proof {
        assert(views_of(out0.push(w)) =~= views_of(out0).push(w@));
        assert(raw + seq![sub] =~= raw.push(sub));
    }
    out
}

/// The pieces joined by one separator character.
pub open spec fn spec_join_sep(ws: Seq<Seq<char>>, sep: char) -> Seq<char>
    decreases ws.len(),
{
    if ws.len() == 0 {
        Seq::empty()
    } else if ws.len() == 1 {
        ws[0]
    } else {
        ws[0] + seq![sep] + spec_join_sep(ws.drop_first(), sep)
    }
}

/// Appending one more piece extends the joined sequence by a separator
/// and the piece.
pub proof fn lemma_join_sep_push(ws: Seq<Seq<char>>, w: Seq<char>, sep: char)
    ensures
        ws.len() == 0 ==> spec_join_sep(ws.push(w), sep) == w,
        ws.len() > 0 ==> spec_join_sep(ws.push(w), sep) == spec_join_sep(ws, sep) + seq![sep] + w,
    decreases ws.len(),
{
    let p = ws.push(w);
    if ws.len() == 0 {
        assert(p.len() == 1);
        assert(p[0] == w);
    } else if ws.len() == 1 {
        assert(p[0] == ws[0]);
        assert(p.drop_first() =~= seq![w]);
        assert(spec_join_sep(seq![w], sep) == w);
    } else {
        assert(p[0] == ws[0]);
        assert(p.drop_first() =~= ws.drop_first().push(w));
        lemma_join_sep_push(ws.drop_first(), w, sep);
        assert(ws[0] + seq![sep] + (spec_join_sep(ws.drop_first(), sep) + seq![sep] + w) =~= (
        ws[0] + seq![sep] + spec_join_sep(ws.drop_first(), sep)) + seq![sep] + w);
    }
}

/// ASCII lower-casing of one character.
pub open spec fn lower_char(c: char) -> char {
    if 'A' <= c <= 'Z' {
        (((c as u8) + 32) as u8) as char
    } else {
        c
    }
}

/// ASCII lower-casing of a sequence.
pub open spec fn spec_lower(s: Seq<char>) -> Seq<char> {
    s.map_values(|c: char| lower_char(c))
}

/// The character lower-cased.
pub fn to_lower_char(c: char) -> (r: char)
    ensures
        r == lower_char(c),
{
    if c >= 'A' && c <= 'Z' {
        (((c as u8) + 32) as u8) as char
    } else {
        c
    }
}

/// Whether `p` occurs as a contiguous subsequence of `s`.
pub open spec fn spec_contains_seq(s: Seq<char>, p: Seq<char>) -> bool {
    exists|i: int| 0 <= i <= s.len() - p.len() && #[trigger] s.subrange(i, i + p.len()) == p
}

fn match_at(s: &str, i: usize, p: &str, fold: bool) -> (r: bool)
    requires
        i + p@.len() <= s@.len(),
        s@.len() <= usize::MAX,
    ensures
        fold ==> r == (spec_lower(s@).subrange(i as int, i as int + p@.len() as int) == p@),
        !fold ==> r == (s@.subrange(i as int, i as int + p@.len() as int) == p@),
    decreases p@.len(),
{
    let ghost hs = if fold {
        spec_lower(s@)
    } else {
        s@
    };
    let m = p.unicode_len();
    let mut k: usize = 0;
    while k < m
        invariant
            k <= m,
            m == p@.len(),
            i + m <= s@.len(),
            s@.len() <= usize::MAX,
            hs == (if fold {
                spec_lower(s@)
            } else {
                s@
            }),
            hs.len() == s@.len(),
            forall|l: int| 0 <= l < k ==> hs[i + l] == p@[l],
        decreases m - k,
    {
        let sc = if fold {
            to_lower_char(s.get_char(i + k))
        } else {
            s.get_char(i + k)
        };
        if sc != p.get_char(k) {
            proof {
                assert(hs.subrange(i as int, i as int + m as int)[k as int] == hs[i + k]);
            }
            return false;
        }
        k = k + 1;
    }
    proof {
        assert(hs.subrange(i as int, i as int + m as int) =~= p@);
    }
    true
}

fn contains_impl(s: &str, p: &str, fold: bool) -> (r: bool)
    ensures
        fold ==> r == spec_contains_seq(spec_lower(s@), p@),
        !fold ==> r == spec_contains_seq(s@, p@),
{
    let ghost hs = if fold {
        spec_lower(s@)
    } else {
        s@
    };
    let n = s.unicode_len();
    let m = p.unicode_len();
    if m > n {
        proof {
            assert(!spec_contains_seq(hs, p@)) by {
                if spec_contains_seq(hs, p@) {
                    let i = choose|i: int|
                        0 <= i <= hs.len() - p@.len() && #[trigger] hs.subrange(i, i + p@.len())
                            == p@;
                }
            }
        }
        return false;
    }
    if m == 0 {
        proof {
            assert(hs.subrange(0, 0 + p@.len() as int) =~= p@);
            assert(spec_contains_seq(hs, p@)) by {
                assert(0 <= 0 <= hs.len() - p@.len() && hs.subrange(0, 0 + p@.len() as int)
                    == p@);
            }
        }
        return true;
    }
    let mut i: usize = 0;
    while i <= n - m
        invariant
            1 <= m <= n,
            n == s@.len(),
            m == p@.len(),
            hs == (if fold {
                spec_lower(s@)
            } else {
                s@
            }),
            hs.len() == n,
            forall|j: int|
                0 <= j < i ==> #[trigger] hs.subrange(j, j + p@.len() as int) != p@,
        decreases n - i,
    {
        if match_at(s, i, p, fold) {
            return true;
        }
        i = i + 1;
    }
    proof {
        assert(!spec_contains_seq(hs, p@)) by {
            if spec_contains_seq(hs, p@) {
                let j = choose|j: int|
                    0 <= j <= hs.len() - p@.len() && #[trigger] hs.subrange(j, j + p@.len())
                        == p@;
                assert(j < i);
            }
        }
    }
    false
}

/// Whether the ASCII-lower-cased text contains `p` (which the caller
/// supplies already lower-cased).
pub fn contains_lower(s: &str, p: &str) -> (r: bool)
    ensures
        r == spec_contains_seq(spec_lower(s@), p@),
{
    contains_impl(s, p, true)
}

/// Whether the text contains `p`.
pub fn contains_str(s: &str, p: &str) -> (r: bool)
    ensures
        r == spec_contains_seq(s@, p@),
{
    contains_impl(s, p, false)
}

/// Whether the text begins with `p`.
pub open spec fn spec_starts_with(s: Seq<char>, p: Seq<char>) -> bool {
    s.len() >= p.len() && s.subrange(0, p.len() as int) == p
}

/// Whether the text starts with `p`.
pub fn starts_with_str(s: &str, p: &str) -> (r: bool)
    ensures
        r == spec_starts_with(s@, p@),
{
    let n = s.unicode_len();
    let m = p.unicode_len();
    if m > n {
        return false;
    }
    match_at(s, 0, p, false)
}

/// Whether some string in `ws` has exactly the characters of `s`.
pub open spec fn spec_seq_contains_str(ws: Seq<Seq<char>>, s: Seq<char>) -> bool {
    exists|i: int| 0 <= i < ws.len() && ws[i] == s
}

/// Whether `ws` holds a string equal to `s`.
pub fn vec_contains_str(ws: &Vec<String>, s: &str) -> (r: bool)
    ensures
        r == spec_seq_contains_str(views_of(ws@), s@),
{
    let mut i: usize = 0;
    while i < ws.len()
        invariant
            i <= ws@.len(),
            forall|j: int| 0 <= j < i ==> views_of(ws@)[j] != s@,
        decreases ws@.len() - i,
    {
        proof {
            assert(views_of(ws@)[i as int] == ws@[i as int]@);
        }
        if str_eq(ws[i].as_str(), s) {
            return true;
        }
        i = i + 1;
    }
    proof {
        assert(!spec_seq_contains_str(views_of(ws@), s@)) by {
            if spec_seq_contains_str(views_of(ws@), s@) {
                let j = choose|j: int| 0 <= j < views_of(ws@).len() && views_of(ws@)[j] == s@;
            }
        }
    }
    false
}

/// Split a string into its whitespace-separated words.
pub fn split_words(s: &str) -> (r: Vec<String>)
    ensures
        views_of(r@) == spec_words(s@),
{
    let n = s.unicode_len();
    let mut words: Vec<String> = Vec::new();
    let mut i: usize = 0;
    let mut start: usize = 0;
    let mut in_word = false;
    proof {
        assert(s@.subrange(0, n as int) =~= s@);
        assert(views_of(words@) =~= Seq::<Seq<char>>::empty());
    }
    while i < n
        invariant
            i <= n,
            n == s@.len(),
            in_word ==> start < i,
            in_word ==> forall|j: int| start <= j < i ==> !is_ascii_space(s@[j]),
            spec_words(s@) == views_of(words@) + spec_words(
                s@.subrange(if in_word { start as int } else { i as int }, n as int),
            ),
        decreases n - i, (if in_word { 1int } else { 0int }),
    {
        let is_sp = ascii_space_at(s, i);
        if in_word {
            if is_sp {
                let ghost sub = s@.subrange(start as int, n as int);
                let ghost ws0 = words@;
                proof {
                    assert(forall|j: int| 0 <= j < i - start ==> sub[j] == s@[j + start]);
                    lemma_word_split(sub, i as int - start as int);
                    assert(sub.subrange(0, i as int - start as int) =~= s@.subrange(
                        start as int,
                        i as int,
                    ));
                    assert(sub.subrange(i as int - start as int, sub.len() as int) =~= s@.subrange(
                        i as int,
                        n as int,
                    ));
                }
                let w = s.substring_char(start, i).to_owned();
                words.push(w);
                proof {
                    let rest = spec_words(s@.subrange(i as int, n as int));
                    assert(views_of(ws0.push(w)) =~= views_of(ws0).push(w@));
                    assert(views_of(ws0) + (seq![w@] + rest) =~= views_of(ws0).push(w@) + rest);
                }
                in_word = false;
            } else {
                i = i + 1;
            }
        } else {
            if is_sp {
                proof {
                    let sub = s@.subrange(i as int, n as int);
                    assert(sub[0] == s@[i as int]);
                    assert(sub.drop_first() =~= s@.subrange(i as int + 1, n as int));
                }
                i = i + 1;
            } else {
                start = i;
                in_word = true;
                i = i + 1;
            }
        }
    }
    if in_word {
        let ghost sub = s@.subrange(start as int, n as int);
        let ghost ws0 = words@;
        proof {
            assert(forall|j: int| 0 <= j < n - start ==> sub[j] == s@[j + start]);
            lemma_word_split(sub, n as int - start as int);
            assert(sub.subrange(0, n as int - start as int) =~= sub);
            assert(sub.subrange(n as int - start as int, sub.len() as int).len() == 0);
        }
        let w = s.substring_char(start, n).to_owned();
        words.push(w);
        proof {
            let tail = sub.subrange(n as int - start as int, sub.len() as int);
            assert(spec_words(tail) =~= Seq::<Seq<char>>::empty());
            assert(views_of(ws0.push(w)) =~= views_of(ws0).push(w@));
            assert(views_of(ws0) + (seq![w@] + spec_words(tail)) =~= views_of(ws0).push(w@));
            assert(views_of(words@) =~= views_of(ws0).push(w@));
        }
    } else {
        proof {
            assert(s@.subrange(i as int, n as int).len() == 0);
            assert(views_of(words@) + spec_words(s@.subrange(i as int, n as int)) =~= views_of(
                words@,
            ));
        }
    }
    words
}

} // verus!
