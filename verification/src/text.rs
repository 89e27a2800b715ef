//! Strings as sequences of characters: cutting them into pieces, reading
//! decimal numbers out of them and writing numbers into them.

use vstd::prelude::*;

verus! {

/// The characters of `s`, as a vector.
pub fn chars_of(s: &str) -> (v: Vec<char>)
    ensures
        v@ == s@,
{
    let mut v: Vec<char> = Vec::new();
    for c in it: s.chars()
        invariant
            it.seq() == s@,
            v@ == s@.subrange(0, it.index()),
    {
        v.push(c);
    }
    v
}

/// The views of a sequence of strings.
pub open spec fn views(v: Seq<String>) -> Seq<Seq<char>> {
    Seq::new(v.len(), |i: int| v[i]@)
}

/// The index of the first `c` in `s`, or the length of `s` where it holds none.
pub open spec fn find(s: Seq<char>, c: char) -> int
    decreases s.len(),
{
    if s.len() == 0 {
        0
    } else if s[0] == c {
        0
    } else {
        1 + find(s.skip(1), c)
    }
}

/// `find` stays within the sequence, points at a `c`, and passes none.
pub proof fn lemma_find(s: Seq<char>, c: char)
    ensures
        0 <= find(s, c) <= s.len(),
        find(s, c) < s.len() ==> s[find(s, c)] == c,
        forall|j: int| 0 <= j < find(s, c) ==> s[j] != c,
    decreases s.len(),
{
    if s.len() > 0 && s[0] != c {
        lemma_find(s.skip(1), c);
        assert forall|j: int| 0 <= j < find(s, c) implies s[j] != c by {
            if j > 0 {
                assert(s.skip(1)[j - 1] == s[j]);
            }
        }
    }
}

/// Where the first `c` of `s` stands at `k`, `find` gives `k`.
pub proof fn lemma_find_is(s: Seq<char>, c: char, k: int)
    requires
        0 <= k <= s.len(),
        forall|j: int| 0 <= j < k ==> s[j] != c,
        k < s.len() ==> s[k] == c,
    ensures
        find(s, c) == k,
{
    lemma_find(s, c);
    let f = find(s, c);
    if f < k {
        assert(s[f] == c);
    } else if f > k {
        assert(s[k] != c);
    }
}

/// The pieces of `s` between occurrences of `sep`, empty pieces included.
/// A sequence without `sep` is one piece, so there is always at least one.
pub open spec fn split(s: Seq<char>, sep: char) -> Seq<Seq<char>>
    decreases s.len(),
{
    let i = find(s, sep);
    if 0 <= i < s.len() {
        seq![s.take(i)] + split(s.skip(i + 1), sep)
    } else {
        seq![s]
    }
}

/// `line` without a carriage return at its end.
pub open spec fn without_cr(line: Seq<char>) -> Seq<char> {
    if line.len() > 0 && line.last() == '\r' {
        line.drop_last()
    } else {
        line
    }
}

/// The lines of `s`. A line ends at a line feed, or at a carriage return
/// and a line feed; neither belongs to the line. What follows the last line
/// feed is a line only if it is not empty.
pub open spec fn lines(s: Seq<char>) -> Seq<Seq<char>>
    decreases s.len(),
{
    if s.len() == 0 {
        Seq::empty()
    } else {
        let i = find(s, '\n');
        if 0 <= i < s.len() {
            seq![without_cr(s.take(i))] + lines(s.skip(i + 1))
        } else {
            seq![s]
        }
    }
}

/// Cuts `s` at every `sep`.
pub fn split_at(s: &str, sep: char) -> (r: Vec<String>)
    ensures
        views(r@) == split(s@, sep),
{
    let chars = chars_of(s);
    let n = chars.len();
    let mut r: Vec<String> = Vec::new();
    let mut start: usize = 0;
    let mut i: usize = 0;
    proof {
        assert(s@.skip(0) =~= s@);
        assert(views(r@) + split(s@, sep) =~= split(s@, sep));
    }
    while i < n
        invariant
            chars@ == s@,
            n == chars@.len(),
            start <= i <= n,
            forall|j: int| start <= j < i ==> chars@[j] != sep,
            split(s@, sep) == views(r@) + split(s@.skip(start as int), sep),
        decreases n - i,
    {
        if chars[i] == sep {
            let piece = String::from_str(s.substring_char(start, i));
            proof {
                let rest = s@.skip(start as int);
                lemma_find_is(rest, sep, i - start);
                assert(rest.take(i - start) =~= s@.subrange(start as int, i as int));
                assert(rest.skip(i - start + 1) =~= s@.skip(i + 1));
                assert(views(r@.push(piece)) =~= views(r@) + seq![piece@]);
            }
            r.push(piece);
            start = i + 1;
        }
        i = i + 1;
    }
    let piece = String::from_str(s.substring_char(start, n));
    proof {
        let rest = s@.skip(start as int);
        lemma_find_is(rest, sep, n - start);
        assert(rest =~= s@.subrange(start as int, n as int));
        assert(views(r@.push(piece)) =~= views(r@) + seq![piece@]);
    }
    r.push(piece);
    r
}

/// Cuts `s` into its lines.
pub fn lines_of(s: &str) -> (r: Vec<String>)
    ensures
        views(r@) == lines(s@),
{
    let chars = chars_of(s);
    let n = chars.len();
    let mut r: Vec<String> = Vec::new();
    let mut start: usize = 0;
    let mut i: usize = 0;
    proof {
        assert(s@.skip(0) =~= s@);
        assert(views(r@) + lines(s@) =~= lines(s@));
    }
    while i < n
        invariant
            chars@ == s@,
            n == chars@.len(),
            start <= i <= n,
            forall|j: int| start <= j < i ==> chars@[j] != '\n',
            lines(s@) == views(r@) + lines(s@.skip(start as int)),
        decreases n - i,
    {
        if chars[i] == '\n' {
            let end = if start < i && chars[i - 1] == '\r' {
                i - 1
            } else {
                i
            };
            let piece = String::from_str(s.substring_char(start, end));
            proof {
                let rest = s@.skip(start as int);
                lemma_find_is(rest, '\n', i - start);
                assert(rest.take(i - start) =~= s@.subrange(start as int, i as int));
                assert(without_cr(s@.subrange(start as int, i as int)) =~= s@.subrange(
                    start as int,
                    end as int,
                ));
                assert(rest.skip(i - start + 1) =~= s@.skip(i + 1));
                assert(views(r@.push(piece)) =~= views(r@) + seq![piece@]);
            }
            r.push(piece);
            start = i + 1;
        }
        i = i + 1;
    }
    if start < n {
        let piece = String::from_str(s.substring_char(start, n));
        proof {
            let rest = s@.skip(start as int);
            lemma_find_is(rest, '\n', n - start);
            assert(rest =~= s@.subrange(start as int, n as int));
            assert(views(r@.push(piece)) =~= views(r@) + seq![piece@]);
        }
        r.push(piece);
    } else {
        assert(views(r@) + Seq::<Seq<char>>::empty() =~= views(r@));
    }
    r
}

/// The character that writes the digit `d`.
pub open spec fn digit(d: int) -> char {
    if d == 0 {
        '0'
    } else if d == 1 {
        '1'
    } else if d == 2 {
        '2'
    } else if d == 3 {
        '3'
    } else if d == 4 {
        '4'
    } else if d == 5 {
        '5'
    } else if d == 6 {
        '6'
    } else if d == 7 {
        '7'
    } else if d == 8 {
        '8'
    } else {
        '9'
    }
}

/// The digit that `c` writes, if it writes one.
pub open spec fn digit_value(c: char) -> Option<int> {
    if c == '0' {
        Some(0)
    } else if c == '1' {
        Some(1)
    } else if c == '2' {
        Some(2)
    } else if c == '3' {
        Some(3)
    } else if c == '4' {
        Some(4)
    } else if c == '5' {
        Some(5)
    } else if c == '6' {
        Some(6)
    } else if c == '7' {
        Some(7)
    } else if c == '8' {
        Some(8)
    } else if c == '9' {
        Some(9)
    } else {
        None
    }
}

/// `n` in decimal, without leading zeros.
pub open spec fn decimal(n: nat) -> Seq<char>
    decreases n,
{
    if n < 10 {
        seq![digit(n as int)]
    } else {
        decimal(n / 10).push(digit((n % 10) as int))
    }
}

/// The number that the decimal digits `s` write; `None` where `s` is empty
/// or holds anything but the digits `0` to `9`.
pub open spec fn number(s: Seq<char>) -> Option<nat>
    decreases s.len(),
{
    if s.len() == 0 {
        None
    } else {
        let high = if s.len() == 1 {
            Some(0nat)
        } else {
            number(s.drop_last())
        };
        match (high, digit_value(s.last())) {
            (Some(h), Some(d)) => Some((10 * h + d) as nat),
            _ => None,
        }
    }
}

/// The digit `d` as a string of one character.
pub fn digit_str(d: u64) -> (r: &'static str)
    requires
        d < 10,
    ensures
        r@ == seq![digit(d as int)],
{
    proof {
        reveal_strlit("0");
        reveal_strlit("1");
        reveal_strlit("2");
        reveal_strlit("3");
        reveal_strlit("4");
        reveal_strlit("5");
        reveal_strlit("6");
        reveal_strlit("7");
        reveal_strlit("8");
        reveal_strlit("9");
    }
    let r = if d == 0 {
        "0"
    } else if d == 1 {
        "1"
    } else if d == 2 {
        "2"
    } else if d == 3 {
        "3"
    } else if d == 4 {
        "4"
    } else if d == 5 {
        "5"
    } else if d == 6 {
        "6"
    } else if d == 7 {
        "7"
    } else if d == 8 {
        "8"
    } else {
        "9"
    };
    assert(r@ =~= seq![digit(d as int)]);
    r
}

/// Writes `n` in decimal at the end of `out`.
pub fn push_decimal(out: &mut String, n: u64)
    ensures
        final(out)@ == old(out)@ + decimal(n as nat),
    decreases n,
{
    if n >= 10 {
        push_decimal(out, n / 10);
    }
    out.append(digit_str(n % 10));
    proof {
        if n >= 10 {
            assert(old(out)@ + decimal((n / 10) as nat) + seq![digit((n % 10) as int)] =~= old(
                out,
            )@ + decimal(n as nat));
        }
    }
}

/// `n` in decimal.
pub fn decimal_string(n: u64) -> (r: String)
    ensures
        r@ == decimal(n as nat),
{
    let mut r = String::new();
    push_decimal(&mut r, n);
    assert(Seq::<char>::empty() + decimal(n as nat) =~= decimal(n as nat));
    r
}

/// `n / d` as the nearest whole number; of two that are equally near, the
/// even one.
pub open spec fn nearest(n: int, d: int) -> int
    recommends
        n >= 0,
        d > 0,
{
    let q = n / d;
    let r = n % d;
    if 2 * r > d || (2 * r == d && q % 2 == 1) {
        q + 1
    } else {
        q
    }
}

/// The nearest whole number is no more than a half away.
pub proof fn lemma_nearest(n: int, d: int)
    requires
        n >= 0,
        d > 0,
    ensures
        -d <= 2 * d * nearest(n, d) - 2 * n <= d,
        nearest(n, d) >= 0,
{
    vstd::arithmetic::div_mod::lemma_fundamental_div_mod(n, d);
    vstd::arithmetic::div_mod::lemma_mod_bound(n, d);
    vstd::arithmetic::div_mod::lemma_div_pos_is_pos(n, d);
    let q = n / d;
    let r = n % d;
    assert(2 * d * (q + 1) - 2 * n == 2 * d - 2 * r) by (nonlinear_arith)
        requires
            n == d * q + r,
    ;
    assert(2 * d * q - 2 * n == -2 * r) by (nonlinear_arith)
        requires
            n == d * q + r,
    ;
}

/// `k` spaces.
pub open spec fn spaces(k: nat) -> Seq<char> {
    Seq::new(k, |i: int| ' ')
}

/// `s` behind as many spaces as bring it to `width` characters; `s` itself
/// where it is that long already.
pub open spec fn right_aligned(s: Seq<char>, width: nat) -> Seq<char> {
    if s.len() >= width {
        s
    } else {
        spaces((width - s.len()) as nat) + s
    }
}

/// Sets `s` flush right in a field of `width` characters.
pub fn pad_left(s: &str, width: usize) -> (r: String)
    ensures
        r@ == right_aligned(s@, width as nat),
{
    let n = s.unicode_len();
    let mut r = String::new();
    let mut k: usize = n;
    proof {
        reveal_strlit(" ");
    }
    while k < width
        invariant
            n <= k,
            k <= width || k == n,
            r@ == spaces((k - n) as nat),
            " "@ == seq![' '],
        decreases width - k,
    {
        r.append(" ");
        k = k + 1;
        assert(r@ =~= spaces((k - n) as nat));
    }
    r.append(s);
    proof {
        if n >= width {
            assert(spaces(0) =~= Seq::<char>::empty());
            assert(r@ =~= s@);
        }
    }
    r
}

/// The digit that `c` writes, if it writes one.
pub fn digit_of(c: char) -> (r: Option<u64>)
    ensures
        match r {
            Some(d) => d < 10 && digit_value(c) == Some(d as int),
            None => digit_value(c) is None,
        },
{
    if c == '0' {
        Some(0)
    } else if c == '1' {
        Some(1)
    } else if c == '2' {
        Some(2)
    } else if c == '3' {
        Some(3)
    } else if c == '4' {
        Some(4)
    } else if c == '5' {
        Some(5)
    } else if c == '6' {
        Some(6)
    } else if c == '7' {
        Some(7)
    } else if c == '8' {
        Some(8)
    } else if c == '9' {
        Some(9)
    } else {
        None
    }
}

/// A number written by `s` has every beginning of `s` write a number too,
/// and no greater one.
pub proof fn lemma_number_prefix(s: Seq<char>, k: int)
    requires
        0 < k <= s.len(),
    ensures
        number(s) matches Some(v) ==> (number(s.take(k)) matches Some(p) && p <= v),
    decreases s.len(),
{
    if k < s.len() {
        lemma_number_prefix(s.drop_last(), k);
        assert(s.drop_last().take(k) =~= s.take(k));
    } else {
        assert(s.take(k) =~= s);
    }
}

/// One more digit at the end of a number.
pub proof fn lemma_number_step(s: Seq<char>, i: int)
    requires
        0 <= i < s.len(),
    ensures
        number(s.take(i + 1)) == match (
            if i == 0 {
                Some(0nat)
            } else {
                number(s.take(i))
            },
            digit_value(s[i]),
        ) {
            (Some(h), Some(d)) => Some((10 * h + d) as nat),
            _ => None,
        },
{
    assert(s.take(i + 1).drop_last() =~= s.take(i));
    assert(s.take(i + 1).last() == s[i]);
}

/// `v` where it is a number no greater than `max`.
pub open spec fn at_most(v: Option<nat>, max: nat) -> Option<nat> {
    match v {
        Some(n) => if n <= max {
            Some(n)
        } else {
            None
        },
        None => None,
    }
}

/// What `s` writes as a number no greater than `max`: a `+` or nothing,
/// then decimal digits, at least one.
pub open spec fn unsigned(s: Seq<char>, max: nat) -> Option<nat> {
    if s.len() > 0 && s[0] == '+' {
        at_most(number(s.skip(1)), max)
    } else {
        at_most(number(s), max)
    }
}

/// What `s` writes as a number from `min` to `max`: a `+`, a `-` or
/// nothing, then decimal digits, at least one.
pub open spec fn signed(s: Seq<char>, min: int, max: int) -> Option<int>
    recommends
        min <= 0 <= max,
{
    if s.len() > 0 && s[0] == '-' {
        match at_most(number(s.skip(1)), (-min) as nat) {
            Some(n) => Some(-n),
            None => None,
        }
    } else {
        match unsigned(s, max as nat) {
            Some(n) => Some(n as int),
            None => None,
        }
    }
}

/// Reads the characters of `chars` from index `from` up to index `to` as
/// the digits of a number no greater than `max`.
pub fn read_digits(chars: &Vec<char>, from: usize, to: usize, max: u64) -> (r: Option<u64>)
    requires
        from <= to <= chars@.len(),
    ensures
        match r {
            Some(n) => at_most(number(chars@.subrange(from as int, to as int)), max as nat)
                == Some(n as nat),
            None => at_most(number(chars@.subrange(from as int, to as int)), max as nat) is None,
        },
{
    let ghost s = chars@.subrange(from as int, to as int);
    if from == to {
        return None;
    }
    let mut acc: u64 = 0;
    let mut i: usize = from;
    while i < to
        invariant
            from <= i <= to,
            from < to,
            to <= chars@.len(),
            s == chars@.subrange(from as int, to as int),
            acc <= max,
            i == from ==> acc == 0,
            i > from ==> number(s.take(i - from)) == Some(acc as nat),
        decreases to - i,
    {
        proof {
            lemma_number_step(s, i - from);
            lemma_number_prefix(s, i - from + 1);
        }
        match digit_of(chars[i]) {
            None => {
                return None;
            },
            Some(d) => {
                if d > max || acc > (max - d) / 10 {
                    return None;
                }
                acc = 10 * acc + d;
            },
        }
        i = i + 1;
    }
    proof {
        assert(s.take(to - from) =~= s);
    }
    Some(acc)
}

/// Reads `s` as a `u64`.
pub fn parse_u64(s: &str) -> (r: Option<u64>)
    ensures
        match r {
            Some(n) => unsigned(s@, u64::MAX as nat) == Some(n as nat),
            None => unsigned(s@, u64::MAX as nat) is None,
        },
{
    let chars = chars_of(s);
    proof {
        assert(chars@.subrange(0, chars@.len() as int) =~= chars@);
        assert(chars@.subrange(1, chars@.len() as int) =~= chars@.skip(1));
    }
    if chars.len() > 0 && chars[0] == '+' {
        read_digits(&chars, 1, chars.len(), u64::MAX)
    } else {
        read_digits(&chars, 0, chars.len(), u64::MAX)
    }
}

/// Reads `s` as an `i32`.
pub fn parse_i32(s: &str) -> (r: Option<i32>)
    ensures
        match r {
            Some(n) => signed(s@, i32::MIN as int, i32::MAX as int) == Some(n as int),
            None => signed(s@, i32::MIN as int, i32::MAX as int) is None,
        },
{
    let chars = chars_of(s);
    let n = chars.len();
    proof {
        assert(chars@.subrange(0, n as int) =~= chars@);
        assert(chars@.subrange(1, n as int) =~= chars@.skip(1));
    }
    if n > 0 && chars[0] == '-' {
        match read_digits(&chars, 1, n, 2147483648) {
            Some(m) => Some((0 - (m as i64)) as i32),
            None => None,
        }
    } else {
        let m = if n > 0 && chars[0] == '+' {
            read_digits(&chars, 1, n, 2147483647)
        } else {
            read_digits(&chars, 0, n, 2147483647)
        };
        match m {
            Some(m) => Some(m as i32),
            None => None,
        }
    }
}

/// Whether `a` comes before `b` where the two are compared character by
/// character, as the dictionary does: at the first place where they differ
/// the smaller character decides, and a sequence comes before those that
/// go on from it.
pub open spec fn before(a: Seq<char>, b: Seq<char>) -> bool
    decreases a.len(),
{
    if b.len() == 0 {
        false
    } else if a.len() == 0 {
        true
    } else if a[0] != b[0] {
        a[0] < b[0]
    } else {
        before(a.skip(1), b.skip(1))
    }
}

/// Whether `a` comes before `b` in the order of `before`.
pub fn comes_before(a: &str, b: &str) -> (r: bool)
    ensures
        r == before(a@, b@),
{
    let x = chars_of(a);
    let y = chars_of(b);
    let mut i: usize = 0;
    proof {
        assert(a@.skip(0) =~= a@);
        assert(b@.skip(0) =~= b@);
    }
    while i < x.len() && i < y.len()
        invariant
            x@ == a@,
            y@ == b@,
            i <= x@.len(),
            i <= y@.len(),
            before(a@, b@) == before(a@.skip(i as int), b@.skip(i as int)),
        decreases x@.len() - i,
    {
        if x[i] != y[i] {
            return x[i] < y[i];
        }
        proof {
            assert(a@.skip(i as int).skip(1) =~= a@.skip(i + 1));
            assert(b@.skip(i as int).skip(1) =~= b@.skip(i + 1));
        }
        i = i + 1;
    }
    i < y.len()
}

/// Nothing comes before itself.
pub proof fn lemma_before_irreflexive(a: Seq<char>)
    ensures
        !before(a, a),
    decreases a.len(),
{
    if a.len() > 0 {
        lemma_before_irreflexive(a.skip(1));
    }
}

/// What comes before something that comes before a third comes before the
/// third.
pub proof fn lemma_before_transitive(a: Seq<char>, b: Seq<char>, c: Seq<char>)
    requires
        before(a, b),
        before(b, c),
    ensures
        before(a, c),
    decreases a.len(),
{
    if a.len() > 0 && a[0] == b[0] && b[0] == c[0] {
        lemma_before_transitive(a.skip(1), b.skip(1), c.skip(1));
    }
}

/// Of two different sequences one comes before the other.
pub proof fn lemma_before_total(a: Seq<char>, b: Seq<char>)
    requires
        a != b,
    ensures
        before(a, b) || before(b, a),
    decreases a.len(),
{
    if a.len() == 0 || b.len() == 0 {
        if a.len() == 0 && b.len() == 0 {
            assert(a =~= b);
        }
    } else if a[0] == b[0] {
        if a.skip(1) == b.skip(1) {
            assert(a.len() == b.len()) by {
                assert(a.skip(1).len() == b.skip(1).len());
            }
            assert forall|i: int| 0 <= i < a.len() implies a[i] == b[i] by {
                if i > 0 {
                    assert(a.skip(1)[i - 1] == b.skip(1)[i - 1]);
                }
            }
            assert(a =~= b);
        }
        lemma_before_total(a.skip(1), b.skip(1));
    }
}

} // verus!
