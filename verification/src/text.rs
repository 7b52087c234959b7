//! Characters and trimming, as the validation rules need them.

use vstd::prelude::*;
use vstd::std_specs::iter::IteratorSpec;
use vstd::string::StringExecFns;
use vstd::string::StringSliceAdditionalSpecFns;

verus! {

/// The characters that carry the Unicode property `White_Space`.
pub open spec fn is_white_space(c: char) -> bool {
    let u = c as u32;
    ||| 0x09 <= u <= 0x0D
    ||| u == 0x20
    ||| u == 0x85
    ||| u == 0xA0
    ||| u == 0x1680
    ||| 0x2000 <= u <= 0x200A
    ||| u == 0x2028
    ||| u == 0x2029
    ||| u == 0x202F
    ||| u == 0x205F
    ||| u == 0x3000
}

/// Whether `c` is white space.
pub fn is_whitespace(c: char) -> (b: bool)
    ensures
        b == is_white_space(c),
{
    let u: u32 = c as u32;
    (0x09 <= u && u <= 0x0D) || u == 0x20 || u == 0x85 || u == 0xA0 || u == 0x1680 || (0x2000 <= u
        && u <= 0x200A) || u == 0x2028 || u == 0x2029 || u == 0x202F || u == 0x205F || u == 0x3000
}

/// The number of white-space characters at the start of `s`.
pub open spec fn leading_white_space(s: Seq<char>) -> nat
    decreases s.len(),
{
    if s.len() == 0 || !is_white_space(s[0]) {
        0
    } else {
        1 + leading_white_space(s.drop_first())
    }
}

/// The number of white-space characters at the end of `s`.
pub open spec fn trailing_white_space(s: Seq<char>) -> nat
    decreases s.len(),
{
    if s.len() == 0 || !is_white_space(s.last()) {
        0
    } else {
        1 + trailing_white_space(s.drop_last())
    }
}

/// `s` without its leading and trailing white space.
pub open spec fn trimmed(s: Seq<char>) -> Seq<char> {
    if leading_white_space(s) == s.len() {
        Seq::empty()
    } else {
        s.subrange(leading_white_space(s) as int, s.len() - trailing_white_space(s))
    }
}

/// `s` is not empty and starts or ends with white space.
pub open spec fn has_boundary_white_space(s: Seq<char>) -> bool {
    s.len() > 0 && (is_white_space(s[0]) || is_white_space(s.last()))
}

/// The leading white space of `s` ends at `k`: everything before `k` is
/// white space, and `s` ends there or goes on with another character.
pub proof fn lemma_leading_white_space(s: Seq<char>, k: int)
    requires
        0 <= k <= s.len(),
        forall|j: int| 0 <= j < k ==> is_white_space(#[trigger] s[j]),
        k == s.len() || !is_white_space(s[k]),
    ensures
        leading_white_space(s) == k,
    decreases s.len(),
{
    if k > 0 {
        let rest = s.drop_first();
        assert forall|j: int| 0 <= j < k - 1 implies is_white_space(#[trigger] rest[j]) by {
            assert(rest[j] == s[j + 1]);
        }
        lemma_leading_white_space(rest, k - 1);
    }
}

/// The trailing white space of `s` starts at `e`: everything from `e` on is
/// white space, and the character before `e`, if there is one, is not.
pub proof fn lemma_trailing_white_space(s: Seq<char>, e: int)
    requires
        0 <= e <= s.len(),
        forall|j: int| e <= j < s.len() ==> is_white_space(#[trigger] s[j]),
        e == 0 || !is_white_space(s[e - 1]),
    ensures
        trailing_white_space(s) == s.len() - e,
    decreases s.len(),
{
    if e < s.len() {
        let rest = s.drop_last();
        assert forall|j: int| e <= j < rest.len() implies is_white_space(#[trigger] rest[j]) by {
            assert(rest[j] == s[j]);
        }
        lemma_trailing_white_space(rest, e);
    }
}

/// What trimming leaves: a stretch of `s` with only white space before and
/// after it, which is empty or starts and ends with other characters.
pub proof fn lemma_trimmed(s: Seq<char>)
    ensures
        leading_white_space(s) <= s.len(),
        trailing_white_space(s) <= s.len(),
        forall|j: int| 0 <= j < leading_white_space(s) ==> is_white_space(#[trigger] s[j]),
        forall|j: int|
            s.len() - trailing_white_space(s) <= j < s.len() ==> is_white_space(#[trigger] s[j]),
        trimmed(s).len() > 0 ==> !is_white_space(trimmed(s)[0]) && !is_white_space(
            trimmed(s).last(),
        ),
        trimmed(s).len() == 0 <==> forall|j: int|
            0 <= j < s.len() ==> is_white_space(#[trigger] s[j]),
        trimmed(s) == s <==> !has_boundary_white_space(s),
{
    lemma_leading_bounds(s);
    lemma_trailing_bounds(s);
    let a = leading_white_space(s) as int;
    let t = trailing_white_space(s) as int;
    if a < s.len() {
        // A character that is not white space stands between the two runs.
        assert(!is_white_space(s[a]));
        assert(s.len() - t > a) by {
            if s.len() - t <= a {
                assert(is_white_space(s[a]));
            }
        }
        assert(trimmed(s)[0] == s[a]);
        assert(trimmed(s).last() == s[s.len() - t - 1]);
        if !has_boundary_white_space(s) {
            assert(a == 0 && t == 0);
            assert(trimmed(s) =~= s);
        } else {
            assert(a > 0 || t > 0);
            assert(trimmed(s).len() < s.len());
        }
    } else {
        assert(trimmed(s) =~= Seq::<char>::empty());
        if s.len() > 0 {
            assert(is_white_space(s[0]));
        } else {
            assert(trimmed(s) =~= s);
        }
    }
}

/// Trimming what is trimmed changes nothing.
pub proof fn lemma_trim_is_idempotent(s: Seq<char>)
    ensures
        trimmed(trimmed(s)) == trimmed(s),
{
    lemma_trimmed(s);
}

proof fn lemma_leading_bounds(s: Seq<char>)
    ensures
        leading_white_space(s) <= s.len(),
        forall|j: int| 0 <= j < leading_white_space(s) ==> is_white_space(#[trigger] s[j]),
        leading_white_space(s) < s.len() ==> !is_white_space(s[leading_white_space(s) as int]),
    decreases s.len(),
{
    if s.len() > 0 && is_white_space(s[0]) {
        let rest = s.drop_first();
        lemma_leading_bounds(rest);
        assert forall|j: int| 0 <= j < leading_white_space(s) implies is_white_space(
            #[trigger] s[j],
        ) by {
            if j > 0 {
                assert(s[j] == rest[j - 1]);
            }
        }
        if leading_white_space(s) < s.len() {
            assert(s[leading_white_space(s) as int] == rest[leading_white_space(rest) as int]);
        }
    }
}

proof fn lemma_trailing_bounds(s: Seq<char>)
    ensures
        trailing_white_space(s) <= s.len(),
        forall|j: int|
            s.len() - trailing_white_space(s) <= j < s.len() ==> is_white_space(#[trigger] s[j]),
        trailing_white_space(s) < s.len() ==> !is_white_space(
            s[s.len() - trailing_white_space(s) - 1],
        ),
    decreases s.len(),
{
    if s.len() > 0 && is_white_space(s.last()) {
        let rest = s.drop_last();
        lemma_trailing_bounds(rest);
        assert forall|j: int|
            s.len() - trailing_white_space(s) <= j < s.len() implies is_white_space(
            #[trigger] s[j],
        ) by {
            if j < s.len() - 1 {
                assert(s[j] == rest[j]);
            }
        }
        if trailing_white_space(s) < s.len() {
            assert(s[s.len() - trailing_white_space(s) - 1] == rest[rest.len()
                - trailing_white_space(rest) - 1]);
        }
    }
}

/// `s` without its leading and trailing white space.
pub fn trim(s: &str) -> (r: &str)
    ensures
        r@ == trimmed(s@),
{
    let n = s.unicode_len();
    let mut it = s.chars();
    let mut i: usize = 0;
    let mut found = false;
    let mut start: usize = 0;
    let mut end: usize = 0;
    loop
        invariant
            n == s@.len(),
            i <= n,
            it.remaining() == s@.skip(i as int),
            !found ==> forall|j: int| 0 <= j < i ==> is_white_space(#[trigger] s@[j]),
            found ==> start < end <= i,
            found ==> forall|j: int| 0 <= j < start ==> is_white_space(#[trigger] s@[j]),
            found ==> !is_white_space(s@[start as int]),
            found ==> !is_white_space(s@[end - 1]),
            found ==> forall|j: int| end <= j < i ==> is_white_space(#[trigger] s@[j]),
        ensures
            i == n,
        decreases n - i,
    {
        match it.next() {
            Some(c) => {
                if !is_whitespace(c) {
                    if !found {
                        found = true;
                        start = i;
                    }
                    end = i + 1;
                }
                i = i + 1;
            },
            None => {
                break ;
            },
        }
    }
    if found {
        proof {
            lemma_leading_white_space(s@, start as int);
            lemma_trailing_white_space(s@, end as int);
        }
        s.substring_char(start, end)
    } else {
        proof {
            lemma_leading_white_space(s@, n as int);
        }
        let r = s.substring_char(0, 0);
        r
    }
}

/// Whether `s` starts or ends with white space.
pub fn starts_or_ends_with_whitespace(s: &str) -> (b: bool)
    ensures
        b == has_boundary_white_space(s@),
{
    let n = s.unicode_len();
    let mut it = s.chars();
    let mut i: usize = 0;
    let mut first_is_space = false;
    let mut last_is_space = false;
    loop
        invariant
            n == s@.len(),
            i <= n,
            it.remaining() == s@.skip(i as int),
            i > 0 ==> first_is_space == is_white_space(s@[0]),
            i > 0 ==> last_is_space == is_white_space(s@[i - 1]),
        ensures
            i == n,
        decreases n - i,
    {
        match it.next() {
            Some(c) => {
                last_is_space = is_whitespace(c);
                if i == 0 {
                    first_is_space = last_is_space;
                }
                i = i + 1;
            },
            None => {
                break ;
            },
        }
    }
    n > 0 && (first_is_space || last_is_space)
}

/// Whether two strings hold the same characters.
pub fn same_text(a: &str, b: &str) -> (same: bool)
    ensures
        same == (a@ == b@),
{
    let x = a.as_bytes();
    let y = b.as_bytes();
    if x.len() != y.len() {
        return false;
    }
    let n = x.len();
    let mut i: usize = 0;
    while i < n
        invariant
            n == x@.len(),
            n == y@.len(),
            i <= n,
            x@.subrange(0, i as int) == y@.subrange(0, i as int),
            x@ == a.spec_bytes(),
            y@ == b.spec_bytes(),
        decreases n - i,
    {
        if x[i] != y[i] {
            return false;
        }
        i = i + 1;
    }
    proof {
        // Equal UTF-8 bytes decode to equal characters.
        vstd::utf8::encode_utf8_decode_utf8(a@);
        vstd::utf8::encode_utf8_decode_utf8(b@);
        assert(x@.subrange(0, n as int) =~= x@);
        assert(y@.subrange(0, n as int) =~= y@);
    }
    true
}

/// `base` followed by `extension`.
pub fn with_extension(base: &str, extension: &str) -> (name: String)
    ensures
        name@ == base@ + extension@,
{
    let mut name = base.to_owned();
    name.append(extension);
    name
}

/// `name` ends with `extension`.
pub open spec fn has_extension(name: Seq<char>, extension: Seq<char>) -> bool {
    name.len() >= extension.len() && name.subrange(name.len() - extension.len(), name.len() as int)
        == extension
}

/// `name` without the `extension` that it ends with.
pub open spec fn without_extension(name: Seq<char>, extension: Seq<char>) -> Seq<char>
    recommends
        has_extension(name, extension),
{
    name.subrange(0, name.len() - extension.len())
}

/// `name` without `extension`, where it ends with it.
pub fn strip_extension<'a>(name: &'a str, extension: &str) -> (base: Option<&'a str>)
    ensures
        match base {
            Some(base) => has_extension(name@, extension@) && base@ == without_extension(
                name@,
                extension@,
            ),
            None => !has_extension(name@, extension@),
        },
{
    let n = name.unicode_len();
    let m = extension.unicode_len();
    if n < m {
        return None;
    }
    let tail = name.substring_char(n - m, n);
    if same_text(tail, extension) {
        Some(name.substring_char(0, n - m))
    } else {
        None
    }
}

/// The character of the digit `digit`.
pub open spec fn digit_char(digit: nat) -> char
    recommends
        digit < 10,
{
    (0x30 + digit) as char
}

/// `n` in decimal digits.
pub open spec fn decimal_text(n: nat) -> Seq<char>
    decreases n,
{
    if n < 10 {
        seq![digit_char(n)]
    } else {
        decimal_text(n / 10).push(digit_char(n % 10))
    }
}

/// The digit `digit` as a string.
fn digit_text(digit: usize) -> (text: &'static str)
    requires
        digit < 10,
    ensures
        text@ == seq![digit_char(digit as nat)],
{
    proof {
        reveal_strlit("0");
        reveal_strlit("1");
        reveal_strlit("2");
        reveal_strlit("3");
        reveal_strlit("4");
        reveal_strlit("5");
        reveal_strlit("6");
        reveal_strlit("7");
        reveal_strlit("8");
        reveal_strlit("9");
    }
    let text = match digit {
        0 => "0",
        1 => "1",
        2 => "2",
        3 => "3",
        4 => "4",
        5 => "5",
        6 => "6",
        7 => "7",
        8 => "8",
        _ => "9",
    };
    text
}

/// `n` in decimal digits.
pub fn decimal(n: usize) -> (text: String)
    ensures
        text@ == decimal_text(n as nat),
    decreases n,
{
    if n < 10 {
        digit_text(n).to_owned()
    } else {
        let mut text = decimal(n / 10);
        let last = digit_text(n % 10);
        text.append(last);
        text
    }
}

/// What formatting with `{:?}` makes of a string: the string between
/// double quotes, with the characters escaped that Rust escapes there.
pub uninterp spec fn debug_form(text: Seq<char>) -> Seq<char>;

/// Formats the string with `{:?}`, as `format!` does.
#[verifier::external_body]
pub(crate) fn quoted(text: &str) -> (form: String)
    ensures
        form@ == debug_form(text@),
{
    format!("{:?}", text)
}

/// `first`, `middle` and `last`, one after the other.
pub fn sentence(first: &str, middle: &str, last: &str) -> (text: String)
    ensures
        text@ == first@ + middle@ + last@,
{
    let mut text = first.to_owned();
    text.append(middle);
    text.append(last);
    text
}

} // verus!
