//! Character-level text operations with their mathematical meaning:
//! whitespace trimming, splitting on a separator, equality and decimal
//! rendering of integers.
use vstd::prelude::*;
use vstd::string::StringSliceAdditionalSpecFns;
use vstd::utf8::*;

verus! {

/// The Unicode `White_Space` property, the set of characters that
/// `char::is_whitespace` accepts and that `str::trim` strips.
pub open spec fn is_white_space(c: char) -> bool {
    let u = c as u32;
    ||| 0x9 <= u <= 0xd
    ||| u == 0x20
    ||| u == 0x85
    ||| u == 0xa0
    ||| u == 0x1680
    ||| 0x2000 <= u <= 0x200a
    ||| u == 0x2028
    ||| u == 0x2029
    ||| u == 0x202f
    ||| u == 0x205f
    ||| u == 0x3000
}

/// `s` without its leading whitespace.
pub open spec fn trim_start(s: Seq<char>) -> Seq<char>
    decreases s.len(),
{
    if s.len() > 0 && is_white_space(s[0]) {
        trim_start(s.drop_first())
    } else {
        s
    }
}

/// `s` without its trailing whitespace.
pub open spec fn trim_end(s: Seq<char>) -> Seq<char>
    decreases s.len(),
{
    if s.len() > 0 && is_white_space(s.last()) {
        trim_end(s.drop_last())
    } else {
        s
    }
}

/// `s` without leading and trailing whitespace.
pub open spec fn trim(s: Seq<char>) -> Seq<char> {
    trim_end(trim_start(s))
}

/// The pieces of `s` between the occurrences of `sep`, from left to right;
/// there is always one piece more than there are separators, so the empty
/// text has one empty piece and a trailing separator gives an empty last piece.
pub open spec fn split(s: Seq<char>, sep: char) -> Seq<Seq<char>>
    decreases s.len(),
{
    if s.len() == 0 {
        seq![Seq::<char>::empty()]
    } else {
        let before = split(s.drop_last(), sep);
        if s.last() == sep {
            before.push(Seq::<char>::empty())
        } else {
            before.update(before.len() - 1, before.last().push(s.last()))
        }
    }
}

/// The pieces glued back together with the separator between them.
pub open spec fn join(pieces: Seq<Seq<char>>, sep: char) -> Seq<char>
    decreases pieces.len(),
{
    if pieces.len() <= 1 {
        if pieces.len() == 0 { Seq::<char>::empty() } else { pieces[0] }
    } else {
        join(pieces.drop_last(), sep).push(sep) + pieces.last()
    }
}

/// The texts that a vector of strings holds.
pub open spec fn texts(v: Seq<String>) -> Seq<Seq<char>> {
    v.map_values(|x: String| x@)
}

/// The texts that a vector of string slices holds.
pub open spec fn str_texts(v: Seq<&str>) -> Seq<Seq<char>> {
    v.map_values(|x: &str| x@)
}

/// The decimal digit for `d < 10`.
pub open spec fn digit(d: nat) -> char {
    ((d + 48) as u32) as char
}

/// The decimal representation of `n`, without leading zeros.
pub open spec fn decimal(n: nat) -> Seq<char>
    decreases n,
{
    if n < 10 {
        seq![digit(n)]
    } else {
        decimal(n / 10).push(digit(n % 10))
    }
}

pub proof fn lemma_split_nonempty(s: Seq<char>, sep: char)
    ensures
        split(s, sep).len() >= 1,
    decreases s.len(),
{
    if s.len() > 0 {
        lemma_split_nonempty(s.drop_last(), sep);
    }
}

/// Splitting and joining again gives back the text, and no piece holds the
/// separator.
pub proof fn lemma_split_join(s: Seq<char>, sep: char)
    ensures
        join(split(s, sep), sep) == s,
        forall|i: int, j: int|
            0 <= i < split(s, sep).len() && 0 <= j < split(s, sep)[i].len() ==> split(
                s,
                sep,
            )[i][j] != sep,
    decreases s.len(),
{
    if s.len() > 0 {
        let t = s.drop_last();
        lemma_split_join(t, sep);
        lemma_split_nonempty(t, sep);
        let before = split(t, sep);
        if s.last() == sep {
            let after = before.push(Seq::<char>::empty());
            assert(after.drop_last() =~= before);
            assert(join(after, sep) =~= s);
        } else {
            let after = before.update(before.len() - 1, before.last().push(s.last()));
            if before.len() == 1 {
                assert(join(after, sep) =~= s);
            } else {
                assert(after.drop_last() =~= before.drop_last());
                let head = join(before.drop_last(), sep).push(sep);
                assert(join(before, sep) == head + before.last());
                assert(after.last() == before.last().push(s.last()));
                assert(join(after, sep) == head + after.last());
                assert(head + before.last().push(s.last()) =~= (head + before.last()).push(
                    s.last(),
                ));
                assert(join(after, sep) =~= s);
            }
        }
    } else {
        assert(join(split(s, sep), sep) =~= s);
    }
}

/// Whether `c` is whitespace in the sense of `is_white_space`.
pub fn char_is_white_space(c: char) -> (b: bool)
    ensures
        b == is_white_space(c),
{
    let u = c as u32;
    (0x9 <= u && u <= 0xd) || u == 0x20 || u == 0x85 || u == 0xa0 || u == 0x1680 || (0x2000
        <= u && u <= 0x200a) || u == 0x2028 || u == 0x2029 || u == 0x202f || u == 0x205f || u
        == 0x3000
}

proof fn lemma_trim_start_skip(s: Seq<char>, i: int)
    requires
        0 <= i < s.len(),
        is_white_space(s[i]),
    ensures
        trim_start(s.subrange(i, s.len() as int)) == trim_start(s.subrange(i + 1, s.len() as int)),
{
    assert(s.subrange(i, s.len() as int).drop_first() =~= s.subrange(i + 1, s.len() as int));
}

proof fn lemma_trim_end_skip(s: Seq<char>, j: int)
    requires
        0 < j <= s.len(),
        is_white_space(s[j - 1]),
    ensures
        trim_end(s.subrange(0, j)) == trim_end(s.subrange(0, j - 1)),
{
    assert(s.subrange(0, j).drop_last() =~= s.subrange(0, j - 1));
}

/// The text `s` without leading and trailing whitespace.
pub fn trimmed(s: &str) -> (r: String)
    ensures
        r@ == trim(s@),
{
    let n = s.unicode_len();
    let mut i: usize = 0;
    assert(s@.subrange(0, n as int) =~= s@);
    while i < n && char_is_white_space(s.get_char(i))
        invariant
            n == s@.len(),
            i <= n,
            trim_start(s@) == trim_start(s@.subrange(i as int, n as int)),
        decreases n - i,
    {
        proof {
            lemma_trim_start_skip(s@, i as int);
        }
        i = i + 1;
    }
    let ghost rest = s@.subrange(i as int, n as int);
    assert(trim_start(s@) == rest) by {
        if i < n {
            assert(rest[0] == s@[i as int]);
        }
    }
    let mut j: usize = n;
    while j > i && char_is_white_space(s.get_char(j - 1))
        invariant
            n == s@.len(),
            i <= j <= n,
            rest == s@.subrange(i as int, n as int),
            trim_end(rest) == trim_end(s@.subrange(i as int, j as int)),
        decreases j,
    {
        proof {
            let t = s@.subrange(i as int, j as int);
            assert(t[t.len() - 1] == s@[j - 1]);
            lemma_trim_end_skip(t, t.len() as int);
            assert(t.subrange(0, t.len() - 1) =~= s@.subrange(i as int, j - 1));
            assert(t.subrange(0, t.len() as int) =~= t);
        }
        j = j - 1;
    }
    let ghost kept = s@.subrange(i as int, j as int);
    assert(trim_end(kept) == kept) by {
        if j > i {
            assert(kept.last() == s@[j - 1]);
        }
    }
    s.substring_char(i, j).to_owned()
}

/// The UTF-8 bytes of a text.
pub open spec fn utf8_bytes(s: Seq<char>) -> Seq<u8> {
    encode_utf8(s)
}

/// Byte positions `from` and `to` of the text's encoding can cut it, as
/// `&s[from..to]` requires.
pub open spec fn can_slice(s: Seq<char>, from: int, to: int) -> bool {
    &&& 0 <= from <= to <= utf8_bytes(s).len()
    &&& is_char_boundary(utf8_bytes(s), from)
    &&& is_char_boundary(utf8_bytes(s), to)
}

/// The text between byte positions `from` and `to`, as `&s[from..to]` gives it.
pub open spec fn byte_slice(s: Seq<char>, from: int, to: int) -> Seq<char> {
    decode_utf8(utf8_bytes(s).subrange(from, to))
}

/// The length of a text's UTF-8 encoding, as `str::len` gives it.
pub fn byte_len(s: &str) -> (r: usize)
    ensures
        r == utf8_bytes(s@).len(),
{
    let b = s.as_bytes();
    assert(b@ == utf8_bytes(s@));
    b.len()
}

/// Whether byte position `i` of a text's encoding starts a character or is
/// its end, as `str::is_char_boundary` tells.
pub fn is_boundary(s: &str, i: usize) -> (r: bool)
    ensures
        r == is_char_boundary(utf8_bytes(s@), i as int),
{
    assert(s.spec_bytes() == utf8_bytes(s@));
    s.is_char_boundary(i)
}

/// The text between byte positions `from` and `to`.
pub fn byte_slice_text(s: &str, from: usize, to: usize) -> (r: String)
    requires
        can_slice(s@, from as int, to as int),
    ensures
        r@ == byte_slice(s@, from as int, to as int),
{
    broadcast use encode_utf8_valid_utf8, encode_utf8_decode_utf8;

    let ghost bytes = utf8_bytes(s@);
    assert(s.spec_bytes() == bytes);
    let (_, rest) = s.split_at(from);
    proof {
        valid_utf8_split(bytes, from as int);
        let tail = bytes.subrange(from as int, bytes.len() as int);
        assert(rest.spec_bytes() =~= tail);
        if to < bytes.len() {
            is_char_boundary_iff_not_is_continuation_byte(bytes, to as int);
            is_char_boundary_iff_not_is_continuation_byte(tail, to - from);
            assert(tail[to - from] == bytes[to as int]);
        } else {
            is_char_boundary_start_end_of_seq(tail);
        }
        assert(is_char_boundary(rest.spec_bytes(), to - from));
    }
    let (mid, _) = rest.split_at(to - from);
    proof {
        assert(mid.spec_bytes() =~= bytes.subrange(from as int, to as int));
        assert(encode_utf8(mid@) == mid.spec_bytes());
        assert(decode_utf8(encode_utf8(mid@)) == mid@);
    }
    mid.to_owned()
}

/// Whether two texts are equal, character by character.
pub fn str_eq(a: &str, b: &str) -> (r: bool)
    ensures
        r == (a@ == b@),
{
    let n = a.unicode_len();
    let m = b.unicode_len();
    if n != m {
        return false;
    }
    let mut i: usize = 0;
    while i < n
        invariant
            n == a@.len(),
            m == b@.len(),
            n == m,
            i <= n,
            forall|k: int| 0 <= k < i ==> a@[k] == b@[k],
        decreases n - i,
    {
        if a.get_char(i) != b.get_char(i) {
            return false;
        }
        i = i + 1;
    }
    assert(a@ =~= b@);
    true
}

/// The text `a` followed by the text `b`.
pub fn concat(a: &str, b: &str) -> (r: String)
    ensures
        r@ == a@ + b@,
{
    a.to_owned().concat(b)
}

/// The pieces of `s` between the occurrences of `sep`.
pub fn split_by(s: &str, sep: char) -> (r: Vec<String>)
    ensures
        texts(r@) == split(s@, sep),
{
    let n = s.unicode_len();
    let mut pieces: Vec<String> = Vec::new();
    let mut start: usize = 0;
    let mut i: usize = 0;
    assert(s@.subrange(0, 0) =~= Seq::<char>::empty());
    assert(texts(pieces@) =~= Seq::<Seq<char>>::empty());
    while i < n
        invariant
            n == s@.len(),
            start <= i <= n,
            split(s@.subrange(0, i as int), sep) == texts(pieces@).push(
                s@.subrange(start as int, i as int),
            ),
        decreases n - i,
    {
        let c = s.get_char(i);
        let ghost p = s@.subrange(0, i + 1);
        assert(p.drop_last() =~= s@.subrange(0, i as int));
        assert(p.last() == c);
        if c == sep {
            let piece = s.substring_char(start, i).to_owned();
            let ghost prev = pieces@;
            pieces.push(piece);
            assert(texts(pieces@) =~= texts(prev).push(s@.subrange(start as int, i as int)));
            start = i + 1;
            assert(s@.subrange(start as int, i + 1) =~= Seq::<char>::empty());
            assert(split(p, sep) =~= texts(pieces@).push(s@.subrange(start as int, i + 1)));
        } else {
            let ghost before = split(s@.subrange(0, i as int), sep);
            assert(before.last().push(c) =~= s@.subrange(start as int, i + 1));
            assert(split(p, sep) =~= texts(pieces@).push(s@.subrange(start as int, i + 1)));
        }
        i = i + 1;
    }
    assert(s@.subrange(0, n as int) =~= s@);
    let last = s.substring_char(start, n).to_owned();
    let ghost before_push = pieces@;
    pieces.push(last);
    assert(texts(pieces@) =~= texts(before_push).push(s@.subrange(start as int, n as int)));
    pieces
}

/// The single-digit text for `d < 10`.
fn digit_text(d: u64) -> (r: &'static str)
    requires
        d < 10,
    ensures
        r@ == seq![digit(d as nat)],
{
    proof {
        reveal_strlit("0");
        reveal_strlit("1");
        reveal_strlit("2");
        reveal_strlit("3");
        reveal_strlit("4");
        reveal_strlit("5");
        reveal_strlit("6");
        reveal_strlit("7");
        reveal_strlit("8");
        reveal_strlit("9");
    }
    if d == 0 {
        assert("0"@ =~= seq![digit(0)]);
        "0"
    } else if d == 1 {
        assert("1"@ =~= seq![digit(1)]);
        "1"
    } else if d == 2 {
        assert("2"@ =~= seq![digit(2)]);
        "2"
    } else if d == 3 {
        assert("3"@ =~= seq![digit(3)]);
        "3"
    } else if d == 4 {
        assert("4"@ =~= seq![digit(4)]);
        "4"
    } else if d == 5 {
        assert("5"@ =~= seq![digit(5)]);
        "5"
    } else if d == 6 {
        assert("6"@ =~= seq![digit(6)]);
        "6"
    } else if d == 7 {
        assert("7"@ =~= seq![digit(7)]);
        "7"
    } else if d == 8 {
        assert("8"@ =~= seq![digit(8)]);
        "8"
    } else {
        assert("9"@ =~= seq![digit(9)]);
        "9"
    }
}

/// The decimal representation of `n`.
pub fn decimal_text(n: u64) -> (r: String)
    ensures
        r@ == decimal(n as nat),
    decreases n,
{
    if n < 10 {
        digit_text(n).to_owned()
    } else {
        let high = decimal_text(n / 10);
        let r = high.concat(digit_text(n % 10));
        assert(r@ =~= decimal(n as nat));
        r
    }
}

} // verus!
