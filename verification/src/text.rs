use vstd::prelude::*;
use vstd::utf8::*;

use crate::wrappers::string_from_chars;

verus! {

broadcast use vstd::string::group_string_axioms;

/// Number of bytes in the UTF-8 encoding of `c`.
pub open spec fn char_width(c: char) -> nat {
    let v = c as u32;
    if v <= 0x7F {
        1
    } else if v <= 0x7FF {
        2
    } else if v <= 0xFFFF {
        3
    } else {
        4
    }
}

/// Number of bytes in the UTF-8 encoding of `s`: what `str::len` returns.
pub open spec fn byte_len(s: Seq<char>) -> nat {
    encode_utf8(s).len()
}

/// Number of leading characters of `s` whose encoding fits in `k` bytes.
pub open spec fn prefix_chars(s: Seq<char>, k: int) -> nat
    decreases s.len(),
{
    if s.len() == 0 || k < char_width(s[0]) {
        0
    } else {
        1 + prefix_chars(s.drop_first(), k - char_width(s[0]))
    }
}

/// Byte offset `k` falls between two characters of `s` (or at either end).
pub open spec fn is_boundary(s: Seq<char>, k: int) -> bool {
    byte_len(s.take(prefix_chars(s, k) as int)) == k
}

/// The characters of `s` that lie before byte offset `k`.
pub open spec fn bytes_before(s: Seq<char>, k: int) -> Seq<char> {
    s.take(prefix_chars(s, k) as int)
}

/// The characters of `s` that lie from byte offset `k` on.
pub open spec fn bytes_from(s: Seq<char>, k: int) -> Seq<char> {
    s.skip(prefix_chars(s, k) as int)
}

pub proof fn lemma_encode_scalar_len(c: char)
    ensures
        encode_scalar(c as u32).len() == char_width(c),
{
    char_is_scalar(c);
}

pub proof fn lemma_encode_concat(a: Seq<char>, b: Seq<char>)
    ensures
        encode_utf8(a + b) == encode_utf8(a) + encode_utf8(b),
    decreases a.len(),
{
    if a.len() == 0 {
        assert(a + b =~= b);
        assert(encode_utf8(a) =~= Seq::<u8>::empty());
        assert(encode_utf8(a) + encode_utf8(b) =~= encode_utf8(b));
    } else {
        assert((a + b).drop_first() =~= a.drop_first() + b);
        assert((a + b)[0] == a[0]);
        lemma_encode_concat(a.drop_first(), b);
        assert(encode_utf8(a + b) =~= encode_scalar(a[0] as u32) + encode_utf8(a.drop_first() + b));
        assert(encode_utf8(a + b) =~= encode_utf8(a) + encode_utf8(b));
    }
}

pub proof fn lemma_byte_len_single(c: char)
    ensures
        byte_len(seq![c]) == char_width(c),
{
    lemma_encode_scalar_len(c);
    assert(seq![c].drop_first() =~= Seq::<char>::empty());
    assert(encode_utf8(seq![c]) =~= encode_scalar(c as u32) + encode_utf8(Seq::<char>::empty()));
}

pub proof fn lemma_byte_len_push(s: Seq<char>, c: char)
    ensures
        byte_len(s.push(c)) == byte_len(s) + char_width(c),
{
    assert(s.push(c) =~= s + seq![c]);
    lemma_encode_concat(s, seq![c]);
    lemma_byte_len_single(c);
}

pub proof fn lemma_byte_len_concat(a: Seq<char>, b: Seq<char>)
    ensures
        byte_len(a + b) == byte_len(a) + byte_len(b),
{
    lemma_encode_concat(a, b);
}

/// Taking more characters never gives fewer bytes; each character adds at least one.
pub proof fn lemma_byte_len_take_mono(s: Seq<char>, i: int, j: int)
    requires
        0 <= i <= j <= s.len(),
    ensures
        byte_len(s.take(i)) + (j - i) <= byte_len(s.take(j)),
    decreases j - i,
{
    if i < j {
        lemma_byte_len_take_mono(s, i, j - 1);
        assert(s.take(j) =~= s.take(j - 1).push(s[j - 1]));
        lemma_byte_len_push(s.take(j - 1), s[j - 1]);
    }
}

/// The bytes of a prefix plus the bytes of the rest make up the whole.
pub proof fn lemma_byte_len_split(s: Seq<char>, i: int)
    requires
        0 <= i <= s.len(),
    ensures
        byte_len(s) == byte_len(s.take(i)) + byte_len(s.skip(i)),
{
    assert(s =~= s.take(i) + s.skip(i));
    lemma_byte_len_concat(s.take(i), s.skip(i));
}

/// `prefix_chars` counted from position `i` on.
pub proof fn lemma_prefix_chars_skip(s: Seq<char>, k: int, i: int)
    requires
        0 <= i < s.len(),
        char_width(s[i]) <= k,
    ensures
        prefix_chars(s.skip(i), k) == 1 + prefix_chars(s.skip(i + 1), k - char_width(s[i])),
{
    assert(s.skip(i).drop_first() =~= s.skip(i + 1));
    assert(s.skip(i)[0] == s[i]);
}

pub proof fn lemma_byte_len_first(s: Seq<char>)
    requires
        s.len() > 0,
    ensures
        byte_len(s) == char_width(s[0]) + byte_len(s.drop_first()),
{
    assert(s =~= seq![s[0]] + s.drop_first());
    lemma_byte_len_concat(seq![s[0]], s.drop_first());
    lemma_byte_len_single(s[0]);
}

/// When all of `s` fits in `k` bytes, every character counts.
pub proof fn lemma_prefix_chars_all(s: Seq<char>, k: int)
    requires
        byte_len(s) <= k,
    ensures
        prefix_chars(s, k) == s.len(),
    decreases s.len(),
{
    if s.len() > 0 {
        lemma_byte_len_first(s);
        lemma_prefix_chars_all(s.drop_first(), k - char_width(s[0]));
    }
}

/// Whether the UTF-8 encoding of `v` takes at most `k` bytes.
pub fn byte_len_at_most(v: &Vec<char>, k: usize) -> (b: bool)
    ensures
        b == (byte_len(v@) <= k),
{
    let n = prefix_char_count(v, k);
    proof {
        if byte_len(v@) <= k {
            lemma_prefix_chars_all(v@, k as int);
        }
        if n == v@.len() {
            assert(v@.take(n as int) =~= v@);
        }
    }
    n == v.len()
}

/// Whether the UTF-8 encoding of `v` takes exactly `k` bytes.
pub fn byte_len_is(v: &Vec<char>, k: usize) -> (b: bool)
    ensures
        b == (byte_len(v@) == k),
{
    if k == 0 {
        byte_len_at_most(v, 0)
    } else {
        byte_len_at_most(v, k) && !byte_len_at_most(v, k - 1)
    }
}

/// How many leading characters of `v` fit in `k` bytes, and how many bytes they take.
pub fn prefix_split(v: &Vec<char>, k: usize) -> (r: (usize, usize))
    ensures
        r.0 == prefix_chars(v@, k as int),
        r.0 <= v@.len(),
        r.1 == byte_len(v@.take(r.0 as int)),
        r.1 <= k,
{
    let mut i: usize = 0;
    let mut rest: usize = k;
    proof {
        assert(v@.skip(0) =~= v@);
        assert(v@.take(0) =~= Seq::<char>::empty());
    }
    while i < v.len()
        invariant
            i <= v@.len(),
            prefix_chars(v@, k as int) == i + prefix_chars(v@.skip(i as int), rest as int),
            byte_len(v@.take(i as int)) + rest == k,
        decreases v@.len() - i,
    {
        let w = char_width_of(v[i]);
        if w > rest {
            proof {
                assert(v@.skip(i as int)[0] == v@[i as int]);
            }
            return (i, k - rest);
        }
        proof {
            lemma_prefix_chars_skip(v@, rest as int, i as int);
            assert(v@.take(i + 1) =~= v@.take(i as int).push(v@[i as int]));
            lemma_byte_len_push(v@.take(i as int), v@[i as int]);
        }
        rest = rest - w;
        i = i + 1;
    }
    proof {
        assert(v@.skip(i as int).len() == 0);
    }
    (i, k - rest)
}

/// How many leading characters of `v` fit in `k` bytes.
pub fn prefix_char_count(v: &Vec<char>, k: usize) -> (n: usize)
    ensures
        n == prefix_chars(v@, k as int),
        n <= v@.len(),
        byte_len(v@.take(n as int)) <= k,
{
    let (n, _) = prefix_split(v, k);
    n
}

/// Whether byte offset `k` falls between two characters of `v`.
pub fn is_boundary_at(v: &Vec<char>, k: usize) -> (b: bool)
    ensures
        b == is_boundary(v@, k as int),
{
    let (_, used) = prefix_split(v, k);
    used == k
}

/// The characters of `v` between positions `from` and `to`.
pub fn slice_chars(v: &Vec<char>, from: usize, to: usize) -> (part: Vec<char>)
    requires
        from <= to <= v@.len(),
    ensures
        part@ == v@.subrange(from as int, to as int),
{
    let mut part: Vec<char> = Vec::new();
    let mut k: usize = from;
    while k < to
        invariant
            from <= k <= to <= v@.len(),
            part@ == v@.subrange(from as int, k as int),
        decreases to - k,
    {
        part.push(v[k]);
        proof {
            assert(v@.subrange(from as int, k + 1) =~= v@.subrange(from as int, k as int).push(
                v@[k as int],
            ));
        }
        k = k + 1;
    }
    part
}

/// Number of bytes in the UTF-8 encoding of `c`.
pub fn char_width_of(c: char) -> (w: usize)
    ensures
        w == char_width(c),
        1 <= w <= 4,
{
    let v = c as u32;
    if v <= 0x7F {
        1
    } else if v <= 0x7FF {
        2
    } else if v <= 0xFFFF {
        3
    } else {
        4
    }
}

/// The characters of `s`, in order.
pub fn chars_of(s: &str) -> (v: Vec<char>)
    ensures
        v@ == s@,
{
    let mut v: Vec<char> = Vec::new();
    for c in it: s.chars()
        invariant
            v@ == it.seq().take(it.index() as int),
    {
        v.push(c);
    }
    v
}


/// The Unicode `White_Space` property, which `str::trim` and `char::is_whitespace` follow.
pub open spec fn is_white_space(c: char) -> bool {
    let v = c as u32;
    ||| 0x09 <= v <= 0x0D
    ||| v == 0x20
    ||| v == 0x85
    ||| v == 0xA0
    ||| v == 0x1680
    ||| 0x2000 <= v <= 0x200A
    ||| v == 0x2028
    ||| v == 0x2029
    ||| v == 0x202F
    ||| v == 0x205F
    ||| v == 0x3000
}

/// `s` without its leading white space.
pub open spec fn trim_start_seq(s: Seq<char>) -> Seq<char>
    decreases s.len(),
{
    if s.len() > 0 && is_white_space(s[0]) {
        trim_start_seq(s.drop_first())
    } else {
        s
    }
}

/// `s` without its trailing white space.
pub open spec fn trim_end_seq(s: Seq<char>) -> Seq<char>
    decreases s.len(),
{
    if s.len() > 0 && is_white_space(s.last()) {
        trim_end_seq(s.drop_last())
    } else {
        s
    }
}

/// `s` without leading and trailing white space: what `str::trim` returns.
pub open spec fn trim_seq(s: Seq<char>) -> Seq<char> {
    trim_end_seq(trim_start_seq(s))
}

/// `p` is a prefix of `s`.
pub open spec fn starts_with(s: Seq<char>, p: Seq<char>) -> bool {
    p.len() <= s.len() && s.take(p.len() as int) == p
}

pub fn is_white_space_char(c: char) -> (b: bool)
    ensures
        b == is_white_space(c),
{
    let v = c as u32;
    (0x09 <= v && v <= 0x0D) || v == 0x20 || v == 0x85 || v == 0xA0 || v == 0x1680 || (0x2000
        <= v && v <= 0x200A) || v == 0x2028 || v == 0x2029 || v == 0x202F || v == 0x205F || v
        == 0x3000
}

/// The positions between which the trimmed text of `v` lies.
pub fn trim_range(v: &Vec<char>) -> (r: (usize, usize))
    ensures
        r.0 <= r.1 <= v@.len(),
        v@.subrange(r.0 as int, r.1 as int) == trim_seq(v@),
{
    let mut i: usize = 0;
    proof {
        assert(v@.skip(0) =~= v@);
    }
    while i < v.len() && is_white_space_char(v[i])
        invariant
            i <= v@.len(),
            trim_start_seq(v@) == trim_start_seq(v@.skip(i as int)),
        decreases v@.len() - i,
    {
        proof {
            assert(v@.skip(i as int)[0] == v@[i as int]);
            assert(v@.skip(i as int).drop_first() =~= v@.skip(i + 1));
        }
        i = i + 1;
    }
    proof {
        if i < v@.len() {
            assert(v@.skip(i as int)[0] == v@[i as int]);
        }
        assert(trim_start_seq(v@) == v@.skip(i as int));
        assert(v@.skip(i as int) =~= v@.subrange(i as int, v@.len() as int));
    }
    let mut j: usize = v.len();
    while j > i && is_white_space_char(v[j - 1])
        invariant
            i <= j <= v@.len(),
            trim_seq(v@) == trim_end_seq(v@.subrange(i as int, j as int)),
        decreases j,
    {
        proof {
            assert(v@.subrange(i as int, j as int).last() == v@[j - 1]);
            assert(v@.subrange(i as int, j as int).drop_last() =~= v@.subrange(i as int, j - 1));
        }
        j = j - 1;
    }
    proof {
        if j > i {
            assert(v@.subrange(i as int, j as int).last() == v@[j - 1]);
        }
    }
    (i, j)
}

/// The characters of `v` between positions `from` and `to`, as a `String`.
pub fn text_between(v: &Vec<char>, from: usize, to: usize) -> (s: String)
    requires
        from <= to <= v@.len(),
    ensures
        s@ == v@.subrange(from as int, to as int),
{
    let part = slice_chars(v, from, to);
    string_from_chars(&part)
}

/// `s` without leading and trailing white space (`str::trim`).
pub fn trimmed(s: &str) -> (t: String)
    ensures
        t@ == trim_seq(s@),
{
    let v = chars_of(s);
    let (a, b) = trim_range(&v);
    text_between(&v, a, b)
}


/// The decimal digit for `d < 10`.
pub open spec fn digit_char(d: nat) -> char {
    (('0' as u32) + d) as char
}

/// The decimal representation of `n`, as `{}` formats an unsigned integer.
pub open spec fn decimal(n: nat) -> Seq<char>
    decreases n,
{
    if n < 10 {
        seq![digit_char(n)]
    } else {
        decimal(n / 10).push(digit_char(n % 10))
    }
}

fn digit_of(d: u64) -> (c: char)
    requires
        d < 10,
    ensures
        c == digit_char(d as nat),
{
    if d == 0 {
        '0'
    } else if d == 1 {
        '1'
    } else if d == 2 {
        '2'
    } else if d == 3 {
        '3'
    } else if d == 4 {
        '4'
    } else if d == 5 {
        '5'
    } else if d == 6 {
        '6'
    } else if d == 7 {
        '7'
    } else if d == 8 {
        '8'
    } else {
        '9'
    }
}

/// `n` written in decimal.
pub fn decimal_text(n: u64) -> (s: String)
    ensures
        s@ == decimal(n as nat),
{
    let mut m: u64 = n;
    let mut tail: Vec<char> = Vec::new();
    while m >= 10
        invariant
            decimal(n as nat) == decimal(m as nat) + tail@,
        decreases m,
    {
        let d = digit_of(m % 10);
        let ghost before = tail@;
        proof {
            assert(decimal(m as nat) == decimal((m / 10) as nat).push(d));
            assert(decimal((m / 10) as nat).push(d) + before =~= decimal((m / 10) as nat) + (seq![d]
                + before));
        }
        tail.insert(0, d);
        assert(tail@ =~= seq![d] + before);
        m = m / 10;
    }
    let d = digit_of(m);
    let ghost before = tail@;
    tail.insert(0, d);
    assert(tail@ =~= seq![d] + before);
    assert(decimal(m as nat) =~= seq![d]);
    string_from_chars(&tail)
}


/// The number of bytes of the UTF-8 encoding of `v`.
pub fn byte_length(v: &Vec<char>) -> (n: usize)
    requires
        byte_len(v@) <= usize::MAX,
    ensures
        n == byte_len(v@),
{
    let mut i: usize = 0;
    let mut acc: usize = 0;
    proof {
        assert(v@.take(0) =~= Seq::<char>::empty());
    }
    while i < v.len()
        invariant
            i <= v@.len(),
            acc == byte_len(v@.take(i as int)),
            byte_len(v@) <= usize::MAX,
        decreases v@.len() - i,
    {
        proof {
            assert(v@.take(i + 1) =~= v@.take(i as int).push(v@[i as int]));
            lemma_byte_len_push(v@.take(i as int), v@[i as int]);
            lemma_byte_len_split(v@, i + 1);
        }
        acc = acc + char_width_of(v[i]);
        i = i + 1;
    }
    proof {
        assert(v@.take(i as int) =~= v@);
    }
    acc
}

/// `b` with `c` put in at byte offset `k`.
pub open spec fn inserted_at(b: Seq<char>, k: int, c: char) -> Seq<char> {
    bytes_before(b, k) + seq![c] + bytes_from(b, k)
}

/// `b` without the character that starts at byte offset `k`.
pub open spec fn removed_at(b: Seq<char>, k: int) -> Seq<char> {
    bytes_before(b, k) + bytes_from(b, k).drop_first()
}

pub proof fn lemma_prefix_chars_bound(s: Seq<char>, k: int)
    ensures
        prefix_chars(s, k) <= s.len(),
    decreases s.len(),
{
    if s.len() > 0 && k >= char_width(s[0]) {
        lemma_prefix_chars_bound(s.drop_first(), k - char_width(s[0]));
    }
}

/// At a boundary, `s` splits into the part before and the part from `k`.
pub proof fn lemma_boundary_split(s: Seq<char>, k: int)
    requires
        is_boundary(s, k),
    ensures
        byte_len(bytes_before(s, k)) == k,
        s == bytes_before(s, k) + bytes_from(s, k),
        byte_len(s) == k + byte_len(bytes_from(s, k)),
        k < byte_len(s) ==> bytes_from(s, k).len() > 0,
{
    lemma_prefix_chars_bound(s, k);
    let n = prefix_chars(s, k) as int;
    assert(s =~= s.take(n) + s.skip(n));
    lemma_byte_len_split(s, n);
    if k < byte_len(s) && s.skip(n).len() == 0 {
        assert(s.take(n) =~= s);
    }
}

pub proof fn lemma_inserted_len(b: Seq<char>, k: int, c: char)
    requires
        is_boundary(b, k),
    ensures
        byte_len(inserted_at(b, k, c)) == byte_len(b) + char_width(c),
{
    lemma_boundary_split(b, k);
    lemma_byte_len_concat(bytes_before(b, k) + seq![c], bytes_from(b, k));
    lemma_byte_len_concat(bytes_before(b, k), seq![c]);
    lemma_byte_len_single(c);
}

pub proof fn lemma_removed_len(b: Seq<char>, k: int)
    requires
        is_boundary(b, k),
        k < byte_len(b),
    ensures
        byte_len(removed_at(b, k)) + char_width(bytes_from(b, k)[0]) == byte_len(b),
        k + char_width(bytes_from(b, k)[0]) <= byte_len(b),
{
    lemma_boundary_split(b, k);
    let f = bytes_from(b, k);
    lemma_byte_len_first(f);
    lemma_byte_len_concat(bytes_before(b, k), f.drop_first());
}

/// Put `c` into `buf` at byte offset `k`.
pub fn insert_at_byte(buf: &mut Vec<char>, k: usize, c: char)
    requires
        is_boundary(old(buf)@, k as int),
    ensures
        final(buf)@ == inserted_at(old(buf)@, k as int, c),
{
    let n = prefix_char_count(buf, k);
    proof {
        lemma_boundary_split(buf@, k as int);
    }
    buf.insert(n, c);
    proof {
        assert(buf@ =~= inserted_at(old(buf)@, k as int, c));
    }
}

/// Take out of `buf` the character that starts at byte offset `k`.
pub fn remove_at_byte(buf: &mut Vec<char>, k: usize)
    requires
        is_boundary(old(buf)@, k as int),
        k < byte_len(old(buf)@),
    ensures
        final(buf)@ == removed_at(old(buf)@, k as int),
{
    let n = prefix_char_count(buf, k);
    proof {
        lemma_boundary_split(buf@, k as int);
    }
    buf.remove(n);
    proof {
        assert(buf@ =~= removed_at(old(buf)@, k as int));
    }
}

/// `a` followed by `b`.
pub fn concat2(a: &str, b: &str) -> (s: String)
    ensures
        s@ == a@ + b@,
{
    let mut s = String::from_str(a);
    s.append(b);
    s
}

/// `a`, `b` and `c` one after the other.
pub fn concat3(a: &str, b: &str, c: &str) -> (s: String)
    ensures
        s@ == a@ + b@ + c@,
{
    let mut s = String::from_str(a);
    s.append(b);
    s.append(c);
    s
}


/// `acc` followed by `line` trimmed, unless that is empty.
pub open spec fn keep_line(acc: Seq<Seq<char>>, line: Seq<char>) -> Seq<Seq<char>> {
    if trim_seq(line).len() > 0 {
        acc.push(trim_seq(line))
    } else {
        acc
    }
}

/// Reading `s` on from a line begun with `cur`: the lines (split at `'\n'`)
/// trimmed and without the blank ones, after those already in `acc`.
pub open spec fn scan_lines(s: Seq<char>, cur: Seq<char>, acc: Seq<Seq<char>>) -> Seq<Seq<char>>
    decreases s.len(),
{
    if s.len() == 0 {
        keep_line(acc, cur)
    } else if s[0] == '\n' {
        scan_lines(s.drop_first(), seq![], keep_line(acc, cur))
    } else {
        scan_lines(s.drop_first(), cur.push(s[0]), acc)
    }
}

/// The lines of `s`, each trimmed, without the blank ones
/// (`s.lines().map(str::trim).filter(|l| !l.is_empty())`).
pub open spec fn nonblank_lines(s: Seq<char>) -> Seq<Seq<char>> {
    scan_lines(s, seq![], seq![])
}

pub open spec fn texts_view(v: Seq<String>) -> Seq<Seq<char>> {
    v.map_values(|t: String| t@)
}

fn push_trimmed(acc: &mut Vec<String>, line: &Vec<char>)
    ensures
        texts_view(final(acc)@) == keep_line(texts_view(old(acc)@), line@),
{
    let (a, b) = trim_range(line);
    if a < b {
        let t = text_between(line, a, b);
        let ghost before = acc@;
        acc.push(t);
        proof {
            assert(texts_view(acc@) =~= texts_view(before).push(t@));
        }
    } else {
        assert(trim_seq(line@).len() == 0);
    }
}

/// The non-blank lines of `text`, trimmed.
pub fn nonblank_lines_of(text: &Vec<char>) -> (r: Vec<String>)
    ensures
        texts_view(r@) == nonblank_lines(text@),
{
    let mut acc: Vec<String> = Vec::new();
    let mut cur: Vec<char> = Vec::new();
    let mut i: usize = 0;
    proof {
        assert(text@.skip(0) =~= text@);
        assert(texts_view(acc@) =~= Seq::<Seq<char>>::empty());
    }
    while i < text.len()
        invariant
            i <= text@.len(),
            nonblank_lines(text@) == scan_lines(text@.skip(i as int), cur@, texts_view(acc@)),
        decreases text@.len() - i,
    {
        proof {
            assert(text@.skip(i as int)[0] == text@[i as int]);
            assert(text@.skip(i as int).drop_first() =~= text@.skip(i + 1));
        }
        let c = text[i];
        if c == '\n' {
            push_trimmed(&mut acc, &cur);
            cur = Vec::new();
            assert(cur@ =~= Seq::<char>::empty());
        } else {
            cur.push(c);
        }
        i = i + 1;
    }
    push_trimmed(&mut acc, &cur);
    acc
}

/// The lines of `a` joined with `'\n'` between them.
pub open spec fn joined_lines(a: Seq<Seq<char>>) -> Seq<char>
    decreases a.len(),
{
    if a.len() == 0 {
        seq![]
    } else if a.len() == 1 {
        a[0]
    } else {
        joined_lines(a.drop_last()) + seq!['\n'] + a.last()
    }
}

/// `lines.join("\n")`.
pub fn join_lines(lines: &Vec<String>) -> (s: String)
    ensures
        s@ == joined_lines(texts_view(lines@)),
{
    let mut s = String::new();
    let mut i: usize = 0;
    while i < lines.len()
        invariant
            i <= lines@.len(),
            s@ == joined_lines(texts_view(lines@).take(i as int)),
        decreases lines@.len() - i,
    {
        let ghost v = texts_view(lines@);
        proof {
            assert(v.take(i + 1).drop_last() =~= v.take(i as int));
            assert(v.take(i + 1).last() == lines@[i as int]@);
        }
        if i > 0 {
            s.append("\n");
            proof {
                assert("\n"@ =~= seq!['\n']) by {
                    reveal_strlit("\n");
                }
            }
        } else {
            assert(v.take(1) =~= seq![lines@[0]@]);
        }
        s.append(lines[i].as_str());
        i = i + 1;
    }
    proof {
        assert(texts_view(lines@).take(i as int) =~= texts_view(lines@));
    }
    s
}

} // verus!
