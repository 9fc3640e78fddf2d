//! Character classes and small string operations shared by the sticker
//! modules: Unicode white space, trimming, searching and hex rendering.
use vstd::prelude::*;

verus! {

/// The Unicode `White_Space` property, which is what `char::is_whitespace`
/// tests.
pub open spec fn is_space(c: char) -> bool {
    let n = c as u32;
    ||| 0x09 <= n <= 0x0D
    ||| n == 0x20
    ||| n == 0x85
    ||| n == 0xA0
    ||| n == 0x1680
    ||| 0x2000 <= n <= 0x200A
    ||| n == 0x2028
    ||| n == 0x2029
    ||| n == 0x202F
    ||| n == 0x205F
    ||| n == 0x3000
}

/// Executable test for the Unicode `White_Space` property.
pub fn char_is_space(c: char) -> (r: bool)
    ensures
        r == is_space(c),
{
    let n = c as u32;
    (0x09 <= n && n <= 0x0D) || n == 0x20 || n == 0x85 || n == 0xA0 || n == 0x1680
        || (0x2000 <= n && n <= 0x200A) || n == 0x2028 || n == 0x2029 || n == 0x202F
        || n == 0x205F || n == 0x3000
}

} // verus!

verus! {

/// Whether two strings hold the same characters.
pub fn str_eq(a: &str, b: &str) -> (r: bool)
    ensures
        r == (a@ == b@),
{
    let n = a.unicode_len();
    if n != b.unicode_len() {
        return false;
    }
    let mut i: usize = 0;
    while i < n
        invariant
            n == a@.len(),
            n == b@.len(),
            i <= n,
            forall|j: int| 0 <= j < i ==> a@[j] == b@[j],
        decreases n - i,
    {
        if a.get_char(i) != b.get_char(i) {
            return false;
        }
        i = i + 1;
    }
    assert(a@ =~= b@);
    true
}

/// The maximal stretches of `s` that hold no `/`, in order: the non-empty
/// segments of a `/`-separated path.
pub open spec fn runs(s: Seq<char>) -> Seq<Seq<char>>
    decreases s.len(),
{
    if s.len() == 0 {
        Seq::empty()
    } else if s.last() == '/' {
        runs(s.drop_last())
    } else if s.len() >= 2 && s[s.len() - 2] != '/' {
        let r = runs(s.drop_last());
        r.update(r.len() - 1, r.last().push(s.last()))
    } else {
        runs(s.drop_last()).push(seq![s.last()])
    }
}

/// The texts of a sequence of strings.
pub open spec fn texts(v: Seq<String>) -> Seq<Seq<char>> {
    v.map_values(|x: String| x@)
}

/// Splits `s` at every `/` and keeps the non-empty pieces.
pub fn split_runs(s: &str) -> (r: Vec<String>)
    ensures
        texts(r@) == runs(s@),
{
    let n = s.unicode_len();
    let mut out: Vec<String> = Vec::new();
    let mut start: usize = 0;
    let mut i: usize = 0;
    while i < n
        invariant
            n == s@.len(),
            start <= i <= n,
            start == 0 || s@[start - 1] == '/',
            forall|k: int| start <= k < i ==> s@[k] != '/',
            texts(out@) + (if start < i { seq![s@.subrange(start as int, i as int)] } else { Seq::empty() })
                == runs(s@.take(i as int)),
        decreases n - i,
    {
        let ghost t = s@.take(i as int);
        let ghost before = out@;
        assert(s@.take(i + 1).drop_last() =~= t);
        assert(s@.take(i + 1).last() == s@[i as int]);
        let c = s.get_char(i);
        if c == '/' {
            if start < i {
                let piece = s.substring_char(start, i).to_owned();
                out.push(piece);
                assert(texts(out@) =~= texts(before).push(piece@));
            }
            start = i + 1;
            assert(texts(out@) =~= runs(s@.take(i + 1)));
        } else {
            if start < i {
                assert(t.len() >= 1 && t.last() == s@[i - 1]);
                if i >= 2 {
                    assert(t[t.len() - 1] != '/');
                }
                let ghost r = runs(t);
                assert(r =~= texts(before).push(s@.subrange(start as int, i as int)));
                assert(s@.subrange(start as int, i + 1) =~= s@.subrange(start as int, i as int).push(c));
                assert(texts(before) + seq![s@.subrange(start as int, i + 1)] =~= r.update(
                    r.len() - 1,
                    r.last().push(c),
                ));
            } else {
                assert(i == 0 || t.last() == '/');
                assert(s@.subrange(start as int, i + 1) =~= seq![c]);
                assert(texts(before) + seq![s@.subrange(start as int, i + 1)] =~= runs(t).push(seq![c]));
            }
        }
        i = i + 1;
    }
    assert(s@.take(n as int) =~= s@);
    if start < n {
        let ghost before = out@;
        let piece = s.substring_char(start, n).to_owned();
        out.push(piece);
        assert(texts(out@) =~= texts(before).push(piece@));
    }
    assert(texts(out@) =~= runs(s@));
    out
}

} // verus!

verus! {

/// The lowercase hexadecimal digit for `d` (below 16).
pub open spec fn hex_char(d: nat) -> char {
    if d < 10 {
        (d + 48) as char
    } else {
        (d + 87) as char
    }
}

/// The last `width` hexadecimal digits of `n`, most significant first,
/// padded with `0`: what `{:0width$x}` prints for an `n` below 16^width.
pub open spec fn hex_digits(n: nat, width: nat) -> Seq<char>
    decreases width,
{
    if width == 0 {
        Seq::empty()
    } else {
        hex_digits(n / 16, (width - 1) as nat).push(hex_char(n % 16))
    }
}

/// The one-character text of a hexadecimal digit.
fn hex_digit_text(d: u64) -> (r: &'static str)
    requires
        d < 16,
    ensures
        r@ == seq![hex_char(d as nat)],
{
    proof {
        reveal_strlit("0");
        reveal_strlit("1");
        reveal_strlit("2");
        reveal_strlit("3");
        reveal_strlit("4");
        reveal_strlit("5");
        reveal_strlit("6");
        reveal_strlit("7");
        reveal_strlit("8");
        reveal_strlit("9");
        reveal_strlit("a");
        reveal_strlit("b");
        reveal_strlit("c");
        reveal_strlit("d");
        reveal_strlit("e");
        reveal_strlit("f");
    }
    let r = match d {
        0 => "0",
        1 => "1",
        2 => "2",
        3 => "3",
        4 => "4",
        5 => "5",
        6 => "6",
        7 => "7",
        8 => "8",
        9 => "9",
        10 => "a",
        11 => "b",
        12 => "c",
        13 => "d",
        14 => "e",
        _ => "f",
    };
    assert(r@ =~= seq![hex_char(d as nat)]);
    r
}

/// Appends the last `width` hexadecimal digits of `n`.
pub fn append_hex(out: &mut String, n: u64, width: usize)
    ensures
        final(out)@ == old(out)@ + hex_digits(n as nat, width as nat),
    decreases width,
{
    if width == 0 {
        assert(old(out)@ + hex_digits(n as nat, 0) =~= old(out)@);
        return;
    }
    append_hex(out, n / 16, width - 1);
    out.append(hex_digit_text(n % 16));
    assert(out@ =~= old(out)@ + hex_digits(n as nat, width as nat));
}

} // verus!

verus! {

/// `s` without its leading white space.
pub open spec fn trim_start(s: Seq<char>) -> Seq<char>
    decreases s.len(),
{
    if s.len() > 0 && is_space(s[0]) {
        trim_start(s.drop_first())
    } else {
        s
    }
}

/// `s` without its trailing white space.
pub open spec fn trim_end(s: Seq<char>) -> Seq<char>
    decreases s.len(),
{
    if s.len() > 0 && is_space(s.last()) {
        trim_end(s.drop_last())
    } else {
        s
    }
}

/// `s` without leading and trailing white space (what `str::trim` gives).
pub open spec fn trimmed(s: Seq<char>) -> Seq<char> {
    trim_end(trim_start(s))
}

proof fn lemma_trim_start(s: Seq<char>, a: int)
    requires
        0 <= a <= s.len(),
        forall|j: int| 0 <= j < a ==> is_space(#[trigger] s[j]),
        a < s.len() ==> !is_space(s[a]),
    ensures
        trim_start(s) == s.skip(a),
    decreases a,
{
    if a == 0 {
        assert(s.skip(0) =~= s);
    } else {
        let t = s.drop_first();
        assert forall|j: int| 0 <= j < a - 1 implies is_space(#[trigger] t[j]) by {
            assert(t[j] == s[j + 1]);
        }
        lemma_trim_start(t, a - 1);
        assert(t.skip(a - 1) =~= s.skip(a));
    }
}

proof fn lemma_trim_end(s: Seq<char>, b: int)
    requires
        0 <= b <= s.len(),
        forall|j: int| b <= j < s.len() ==> is_space(#[trigger] s[j]),
        b > 0 ==> !is_space(s[b - 1]),
    ensures
        trim_end(s) == s.take(b),
    decreases s.len() - b,
{
    if b == s.len() {
        assert(s.take(b) =~= s);
    } else {
        let t = s.drop_last();
        lemma_trim_end(t, b);
        assert(t.take(b) =~= s.take(b));
    }
}

/// The white space `trim_start` drops is exactly the leading white space.
proof fn lemma_trim_start_shape(s: Seq<char>)
    ensures
        exists|a: int|
            {
                &&& 0 <= a <= s.len()
                &&& trim_start(s) == s.skip(a)
                &&& forall|j: int| 0 <= j < a ==> is_space(#[trigger] s[j])
                &&& a < s.len() ==> !is_space(s[a])
            },
    decreases s.len(),
{
    if s.len() > 0 && is_space(s[0]) {
        let t = s.drop_first();
        lemma_trim_start_shape(t);
        let a = choose|a: int|
            {
                &&& 0 <= a <= t.len()
                &&& trim_start(t) == t.skip(a)
                &&& forall|j: int| 0 <= j < a ==> is_space(#[trigger] t[j])
                &&& a < t.len() ==> !is_space(t[a])
            };
        assert(t.skip(a) =~= s.skip(a + 1));
        assert forall|j: int| 0 <= j < a + 1 implies is_space(#[trigger] s[j]) by {
            if j > 0 {
                assert(s[j] == t[j - 1]);
            }
        }
        if a + 1 < s.len() {
            assert(s[a + 1] == t[a]);
        }
    } else {
        assert(s.skip(0) =~= s);
    }
}

/// The white space `trim_end` drops is exactly the trailing white space.
proof fn lemma_trim_end_shape(s: Seq<char>)
    ensures
        exists|b: int|
            {
                &&& 0 <= b <= s.len()
                &&& trim_end(s) == s.take(b)
                &&& forall|j: int| b <= j < s.len() ==> is_space(#[trigger] s[j])
                &&& b > 0 ==> !is_space(s[b - 1])
            },
    decreases s.len(),
{
    if s.len() > 0 && is_space(s.last()) {
        let t = s.drop_last();
        lemma_trim_end_shape(t);
        let b = choose|b: int|
            {
                &&& 0 <= b <= t.len()
                &&& trim_end(t) == t.take(b)
                &&& forall|j: int| b <= j < t.len() ==> is_space(#[trigger] t[j])
                &&& b > 0 ==> !is_space(t[b - 1])
            };
        assert(t.take(b) =~= s.take(b));
        assert forall|j: int| b <= j < s.len() implies is_space(#[trigger] s[j]) by {
            if j < t.len() {
                assert(s[j] == t[j]);
            }
        }
        if b > 0 {
            assert(s[b - 1] == t[b - 1]);
        }
    } else {
        assert(s.take(s.len() as int) =~= s);
    }
}

/// Trimming drops exactly the white space around the text: the result is
/// the part of `s` between its leading and its trailing white space, with
/// nothing inside dropped or changed; it starts and ends with a character
/// that is not white space, and it is empty only where `s` is all white
/// space.
pub proof fn lemma_trimmed_bounds(s: Seq<char>)
    ensures
        exists|a: int, b: int|
            {
                &&& 0 <= a <= b <= s.len()
                &&& trimmed(s) == #[trigger] s.subrange(a, b)
                &&& forall|j: int| 0 <= j < a ==> is_space(#[trigger] s[j])
                &&& forall|j: int| b <= j < s.len() ==> is_space(#[trigger] s[j])
                &&& a < b ==> !is_space(s[a]) && !is_space(s[b - 1])
            },
        trimmed(s).len() == 0 <==> forall|j: int| 0 <= j < s.len() ==> is_space(#[trigger] s[j]),
{
    lemma_trim_start_shape(s);
    let a = choose|a: int|
        {
            &&& 0 <= a <= s.len()
            &&& trim_start(s) == s.skip(a)
            &&& forall|j: int| 0 <= j < a ==> is_space(#[trigger] s[j])
            &&& a < s.len() ==> !is_space(s[a])
        };
    let t = s.skip(a);
    lemma_trim_end_shape(t);
    let c = choose|b: int|
        {
            &&& 0 <= b <= t.len()
            &&& trim_end(t) == t.take(b)
            &&& forall|j: int| b <= j < t.len() ==> is_space(#[trigger] t[j])
            &&& b > 0 ==> !is_space(t[b - 1])
        };
    let b = a + c;
    assert(t.take(c) =~= s.subrange(a, b));
    assert forall|j: int| b <= j < s.len() implies is_space(#[trigger] s[j]) by {
        assert(s[j] == t[j - a]);
    }
    if a < b {
        assert(s[b - 1] == t[c - 1]);
    }
    if trimmed(s).len() == 0 {
        assert forall|j: int| 0 <= j < s.len() implies is_space(#[trigger] s[j]) by {
            if j >= a {
                assert(b == a);
                assert(s[j] == t[j - a]);
            }
        }
    }
    if forall|j: int| 0 <= j < s.len() ==> is_space(#[trigger] s[j]) {
        if a < s.len() {
            assert(is_space(s[a]));
        }
    }
    assert(trimmed(s) == s.subrange(a, b));
}

/// `s` without leading and trailing white space.
pub fn trim(s: &str) -> (r: &str)
    ensures
        r@ == trimmed(s@),
{
    let n = s.unicode_len();
    let mut a: usize = 0;
    while a < n && char_is_space(s.get_char(a))
        invariant
            n == s@.len(),
            a <= n,
            forall|j: int| 0 <= j < a ==> is_space(#[trigger] s@[j]),
        decreases n - a,
    {
        a = a + 1;
    }
    let mut b: usize = n;
    while b > a && char_is_space(s.get_char(b - 1))
        invariant
            n == s@.len(),
            a <= b <= n,
            forall|j: int| b <= j < n ==> is_space(#[trigger] s@[j]),
        decreases b,
    {
        b = b - 1;
    }
    proof {
        lemma_trim_start(s@, a as int);
        let t = s@.skip(a as int);
        assert forall|j: int| b - a <= j < t.len() implies is_space(#[trigger] t[j]) by {
            assert(t[j] == s@[j + a]);
        }
        if b > a {
            assert(t[b - a - 1] == s@[b - 1]);
        }
        lemma_trim_end(t, b - a);
        assert(t.take(b - a) =~= s@.subrange(a as int, b as int));
    }
    s.substring_char(a, b)
}

} // verus!

verus! {

/// Hexadecimal digits are ASCII digits and lowercase letters `a` to `f`.
pub proof fn lemma_hex_digits_chars(n: nat, width: nat)
    ensures
        hex_digits(n, width).len() == width,
        forall|i: int| 0 <= i < width ==> {
            let c = #[trigger] hex_digits(n, width)[i];
            ('0' <= c <= '9') || ('a' <= c <= 'f')
        },
    decreases width,
{
    if width > 0 {
        lemma_hex_digits_chars(n / 16, (width - 1) as nat);
        let d = n % 16;
        assert(hex_char(d) == hex_digits(n, width)[width - 1]);
    }
}

} // verus!
