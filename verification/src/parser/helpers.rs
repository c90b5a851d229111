//! Character-level helpers shared by the line classifiers.
//!
//! All positions are counted in characters. The specifications work on
//! `Seq<char>`; the executable functions read a line once into a `Vec<char>`
//! and cut their results out of the `&str` they were given.

use vstd::prelude::*;
use vstd::std_specs::iter::IteratorSpec;
use vstd::utf8::{
    decode_utf8,
    encode_utf8,
    encode_utf8_decode_utf8,
    encode_utf8_first_scalar,
    encode_utf8_valid_utf8,
    is_char_boundary,
    pop_first_scalar,
};

verus! {

/// A set of characters that a scan can run over.
#[derive(Clone, Copy, Debug)]
pub enum CharClass {
    /// Exactly the given character.
    Exactly(char),
    /// Every character but the given one.
    Except(char),
    /// Any character with the Unicode `White_Space` property.
    Whitespace,
    /// An ASCII decimal digit.
    Digit,
}

/// Whether `c` has the Unicode `White_Space` property.
pub open spec fn is_whitespace(c: char) -> bool {
    ||| '\u{9}' <= c <= '\u{d}'
    ||| c == ' '
    ||| c == '\u{85}'
    ||| c == '\u{a0}'
    ||| c == '\u{1680}'
    ||| '\u{2000}' <= c <= '\u{200a}'
    ||| c == '\u{2028}'
    ||| c == '\u{2029}'
    ||| c == '\u{202f}'
    ||| c == '\u{205f}'
    ||| c == '\u{3000}'
}

impl CharClass {
    /// Membership of `c` in the class.
    pub open spec fn has(self, c: char) -> bool {
        match self {
            CharClass::Exactly(x) => c == x,
            CharClass::Except(x) => c != x,
            CharClass::Whitespace => is_whitespace(c),
            CharClass::Digit => '0' <= c <= '9',
        }
    }

    /// Decides membership of `c` in the class.
    pub fn matches(&self, c: char) -> (b: bool)
        ensures
            b == self.has(c),
    {
        match self {
            CharClass::Exactly(x) => c == *x,
            CharClass::Except(x) => c != *x,
            CharClass::Whitespace => {
                ('\u{9}' <= c && c <= '\u{d}') || c == ' ' || c == '\u{85}' || c == '\u{a0}' || c
                    == '\u{1680}' || ('\u{2000}' <= c && c <= '\u{200a}') || c == '\u{2028}' || c
                    == '\u{2029}' || c == '\u{202f}' || c == '\u{205f}' || c == '\u{3000}'
            },
            CharClass::Digit => '0' <= c && c <= '9',
        }
    }
}

/// Length of the longest prefix of `s` whose characters all lie in `class`.
pub open spec fn prefix_len(s: Seq<char>, class: CharClass) -> nat
    decreases s.len(),
{
    if s.len() > 0 && class.has(s[0]) {
        1 + prefix_len(s.drop_first(), class)
    } else {
        0
    }
}

/// Length of the longest suffix of `s` whose characters all lie in `class`.
pub open spec fn suffix_len(s: Seq<char>, class: CharClass) -> nat
    decreases s.len(),
{
    if s.len() > 0 && class.has(s.last()) {
        1 + suffix_len(s.drop_last(), class)
    } else {
        0
    }
}

/// `prefix_len` is at most the length, covers only members of the class, and
/// stops at the first character outside it.
pub proof fn lemma_prefix_len(s: Seq<char>, class: CharClass)
    ensures
        prefix_len(s, class) <= s.len(),
        forall|i: int| 0 <= i < prefix_len(s, class) ==> class.has(#[trigger] s[i]),
        prefix_len(s, class) < s.len() ==> !class.has(s[prefix_len(s, class) as int]),
    decreases s.len(),
{
    if s.len() > 0 && class.has(s[0]) {
        let t = s.drop_first();
        lemma_prefix_len(t, class);
        assert forall|i: int| 0 <= i < prefix_len(s, class) implies class.has(#[trigger] s[i]) by {
            if i > 0 {
                assert(s[i] == t[i - 1]);
            }
        }
        if prefix_len(s, class) < s.len() {
            assert(s[prefix_len(s, class) as int] == t[prefix_len(t, class) as int]);
        }
    }
}

/// Any `n` with the three properties of `lemma_prefix_len` is `prefix_len`.
pub proof fn lemma_prefix_len_is(s: Seq<char>, class: CharClass, n: int)
    requires
        0 <= n <= s.len(),
        forall|i: int| 0 <= i < n ==> class.has(#[trigger] s[i]),
        n < s.len() ==> !class.has(s[n]),
    ensures
        prefix_len(s, class) == n,
    decreases s.len(),
{
    if n > 0 {
        assert(class.has(s[0]));
        let t = s.drop_first();
        assert forall|i: int| 0 <= i < n - 1 implies class.has(#[trigger] t[i]) by {
            assert(t[i] == s[i + 1]);
        }
        lemma_prefix_len_is(t, class, n - 1);
    }
}

/// `suffix_len` is at most the length, covers only members of the class, and
/// stops at the last character outside it.
pub proof fn lemma_suffix_len(s: Seq<char>, class: CharClass)
    ensures
        suffix_len(s, class) <= s.len(),
        forall|i: int| s.len() - suffix_len(s, class) <= i < s.len() ==> class.has(#[trigger] s[i]),
        suffix_len(s, class) < s.len() ==> !class.has(s[s.len() - suffix_len(s, class) - 1]),
    decreases s.len(),
{
    if s.len() > 0 && class.has(s.last()) {
        let t = s.drop_last();
        lemma_suffix_len(t, class);
        assert forall|i: int| s.len() - suffix_len(s, class) <= i < s.len() implies class.has(
            #[trigger] s[i],
        ) by {
            if i < s.len() - 1 {
                assert(s[i] == t[i]);
            }
        }
        if suffix_len(s, class) < s.len() {
            assert(s[s.len() - suffix_len(s, class) - 1] == t[t.len() - suffix_len(t, class) - 1]);
        }
    }
}

/// Any `n` with the three properties of `lemma_suffix_len` is `suffix_len`.
pub proof fn lemma_suffix_len_is(s: Seq<char>, class: CharClass, n: int)
    requires
        0 <= n <= s.len(),
        forall|i: int| s.len() - n <= i < s.len() ==> class.has(#[trigger] s[i]),
        n < s.len() ==> !class.has(s[s.len() - n - 1]),
    ensures
        suffix_len(s, class) == n,
    decreases s.len(),
{
    if n > 0 {
        assert(class.has(s[s.len() - 1]));
        let t = s.drop_last();
        assert forall|i: int| t.len() - (n - 1) <= i < t.len() implies class.has(
            #[trigger] t[i],
        ) by {
            assert(t[i] == s[i]);
        }
        lemma_suffix_len_is(t, class, n - 1);
    }
}

/// `s` without its leading whitespace.
pub open spec fn trim_start(s: Seq<char>) -> Seq<char> {
    s.skip(prefix_len(s, CharClass::Whitespace) as int)
}

/// `s` without its trailing whitespace.
pub open spec fn trim_end(s: Seq<char>) -> Seq<char> {
    s.take(s.len() - suffix_len(s, CharClass::Whitespace))
}

/// `s` without leading and trailing whitespace.
pub open spec fn trim(s: Seq<char>) -> Seq<char> {
    trim_end(trim_start(s))
}

/// A line is blank when it holds nothing but whitespace.
pub open spec fn is_blank(s: Seq<char>) -> bool {
    prefix_len(s, CharClass::Whitespace) == s.len()
}

/// Indentation of `s` in columns: a leading space is one column, a leading
/// tab four, and the count stops at the first other character.
pub open spec fn indent_width(s: Seq<char>) -> nat
    decreases s.len(),
{
    if s.len() > 0 && s[0] == ' ' {
        1 + indent_width(s.drop_first())
    } else if s.len() > 0 && s[0] == '\t' {
        4 + indent_width(s.drop_first())
    } else {
        0
    }
}

/// Trimming never lengthens a text, and a blank text trims to nothing.
pub proof fn lemma_trim(s: Seq<char>)
    ensures
        trim_start(s).len() <= s.len(),
        trim_end(s).len() <= s.len(),
        trim(s).len() <= s.len(),
        is_blank(s) <==> trim(s).len() == 0,
        trim(s).len() > 0 ==> !is_whitespace(trim(s)[0]) && !is_whitespace(trim(s).last()),
{
    lemma_prefix_len(s, CharClass::Whitespace);
    lemma_suffix_len(s, CharClass::Whitespace);
    let t = trim_start(s);
    lemma_suffix_len(t, CharClass::Whitespace);
    if t.len() > 0 {
        assert(t[0] == s[prefix_len(s, CharClass::Whitespace) as int]);
        if suffix_len(t, CharClass::Whitespace) == t.len() {
            assert(CharClass::Whitespace.has(t[0]));
        }
        assert(trim(s).len() > 0);
        assert(trim(s)[0] == t[0]);
        assert(trim(s).last() == t[t.len() - suffix_len(t, CharClass::Whitespace) - 1]);
    }
}

/// The characters of `s`, in order.
pub(crate) fn to_chars(s: &str) -> (chars: Vec<char>)
    ensures
        chars@ == s@,
{
    let mut chars: Vec<char> = Vec::new();
    let mut rest = s.chars();
    loop
        invariant_except_break
            rest.obeys_prophetic_iter_laws(),
            chars@ + rest.remaining() == s@,
        ensures
            chars@ == s@,
        decreases s@.len() - chars@.len(),
    {
        match rest.next() {
            Some(c) => {
                chars.push(c);
            },
            None => {
                assert(chars@ =~= s@);
                break ;
            },
        }
    }
    chars
}

/// Counts the characters of `class` that `chars[from..to]` starts with.
pub(crate) fn count_prefix(chars: &Vec<char>, from: usize, to: usize, class: CharClass) -> (n:
    usize)
    requires
        from <= to <= chars.len(),
    ensures
        n == prefix_len(chars@.subrange(from as int, to as int), class),
        from + n <= to,
{
    let mut i: usize = from;
    while i < to && class.matches(chars[i])
        invariant
            from <= i <= to <= chars.len(),
            forall|j: int| from <= j < i ==> class.has(#[trigger] chars@[j]),
        decreases to - i,
    {
        i += 1;
    }
    proof {
        let sub = chars@.subrange(from as int, to as int);
        assert forall|j: int| 0 <= j < i - from implies class.has(#[trigger] sub[j]) by {
            assert(sub[j] == chars@[from + j]);
        }
        lemma_prefix_len_is(sub, class, i - from);
    }
    i - from
}

/// Counts the characters of `class` that `chars[from..to]` ends with.
pub(crate) fn count_suffix(chars: &Vec<char>, from: usize, to: usize, class: CharClass) -> (n:
    usize)
    requires
        from <= to <= chars.len(),
    ensures
        n == suffix_len(chars@.subrange(from as int, to as int), class),
        from + n <= to,
{
    let mut i: usize = to;
    while i > from && class.matches(chars[i - 1])
        invariant
            from <= i <= to <= chars.len(),
            forall|j: int| i <= j < to ==> class.has(#[trigger] chars@[j]),
        decreases i - from,
    {
        i -= 1;
    }
    proof {
        let sub = chars@.subrange(from as int, to as int);
        assert forall|j: int| sub.len() - (to - i) <= j < sub.len() implies class.has(
            #[trigger] sub[j],
        ) by {
            assert(sub[j] == chars@[from + j]);
        }
        lemma_suffix_len_is(sub, class, to - i);
    }
    to - i
}

/// Bounds of `chars[from..to]` without its leading and trailing whitespace.
pub(crate) fn trim_bounds(chars: &Vec<char>, from: usize, to: usize) -> (r: (usize, usize))
    requires
        from <= to <= chars.len(),
    ensures
        from <= r.0 <= r.1 <= to,
        chars@.subrange(r.0 as int, r.1 as int) == trim(chars@.subrange(from as int, to as int)),
{
    let a = from + count_prefix(chars, from, to, CharClass::Whitespace);
    let b = to - count_suffix(chars, a, to, CharClass::Whitespace);
    proof {
        let sub = chars@.subrange(from as int, to as int);
        assert(trim_start(sub) =~= chars@.subrange(a as int, to as int));
        assert(chars@.subrange(a as int, b as int) =~= trim(sub));
    }
    (a, b)
}

/// Bounds of `chars[from..to]` without its trailing whitespace.
pub(crate) fn trim_end_bound(chars: &Vec<char>, from: usize, to: usize) -> (b: usize)
    requires
        from <= to <= chars.len(),
    ensures
        from <= b <= to,
        chars@.subrange(from as int, b as int) == trim_end(chars@.subrange(from as int, to as int)),
{
    let b = to - count_suffix(chars, from, to, CharClass::Whitespace);
    proof {
        let sub = chars@.subrange(from as int, to as int);
        assert(chars@.subrange(from as int, b as int) =~= trim_end(sub));
    }
    b
}

/// Number of characters of `s`.
pub(crate) fn char_len(s: &str) -> (n: usize)
    ensures
        n == s@.len(),
{
    s.unicode_len()
}

/// The part of `s` from character `from` up to character `to`, as a `String`.
pub(crate) fn slice_to_string(s: &str, from: usize, to: usize) -> (r: String)
    requires
        from <= to <= s@.len(),
    ensures
        r@ == s@.subrange(from as int, to as int),
{
    s.substring_char(from, to).to_owned()
}

/// `s` without leading and trailing whitespace, as a `String`.
pub fn trimmed(s: &str) -> (r: String)
    ensures
        r@ == trim(s@),
{
    let chars = to_chars(s);
    let (a, b) = trim_bounds(&chars, 0, chars.len());
    assert(chars@.subrange(0, chars@.len() as int) =~= s@);
    slice_to_string(s, a, b)
}

/// Counts how many times `c` stands at the start of `s`.
pub fn count_leading_char(s: &str, c: char) -> (n: usize)
    ensures
        n == prefix_len(s@, CharClass::Exactly(c)),
{
    let chars = to_chars(s);
    assert(chars@.subrange(0, chars@.len() as int) =~= s@);
    count_prefix(&chars, 0, chars.len(), CharClass::Exactly(c))
}

/// Indentation of `chars` in columns, capped at `usize::MAX`.
pub(crate) fn indent_of(chars: &Vec<char>) -> (n: usize)
    ensures
        n == if indent_width(chars@) <= usize::MAX {
            indent_width(chars@)
        } else {
            usize::MAX as nat
        },
{
    let mut i: usize = 0;
    let mut n: usize = 0;
    let mut capped = false;
    assert(chars@.skip(0) =~= chars@);
    while i < chars.len() && (chars[i] == ' ' || chars[i] == '\t')
        invariant
            i <= chars.len(),
            !capped ==> n + indent_width(chars@.skip(i as int)) == indent_width(chars@),
            capped ==> n == usize::MAX && indent_width(chars@) > usize::MAX,
        decreases chars.len() - i,
    {
        let step: usize = if chars[i] == ' ' {
            1
        } else {
            4
        };
        proof {
            assert(chars@.skip(i as int).drop_first() =~= chars@.skip(i + 1));
            assert(chars@.skip(i as int)[0] == chars@[i as int]);
        }
        if !capped {
            if n > usize::MAX - step {
                capped = true;
                n = usize::MAX;
            } else {
                n = n + step;
            }
        }
        i += 1;
    }
    proof {
        if i < chars.len() {
            assert(chars@.skip(i as int)[0] == chars@[i as int]);
        }
        assert(indent_width(chars@.skip(i as int)) == 0);
    }
    n
}

/// Indentation of `s` in columns (a space is one, a tab four), capped at
/// `usize::MAX`.
pub fn calculate_indent(s: &str) -> (n: usize)
    ensures
        n == if indent_width(s@) <= usize::MAX {
            indent_width(s@)
        } else {
            usize::MAX as nat
        },
{
    let chars = to_chars(s);
    indent_of(&chars)
}

/// `s` without its first `min(n, k)` characters, where `k` is the number of
/// spaces that `s` starts with.
pub open spec fn without_indent(s: Seq<char>, n: nat) -> Seq<char> {
    let k = prefix_len(s, CharClass::Exactly(' '));
    s.skip(if k <= n { k as int } else { n as int })
}

/// Removes up to `n` leading spaces from `s`.
pub fn remove_indent(s: &str, n: usize) -> (r: &str)
    ensures
        r@ == without_indent(s@, n as nat),
{
    let chars = to_chars(s);
    assert(chars@.subrange(0, chars@.len() as int) =~= s@);
    let spaces = count_prefix(&chars, 0, chars.len(), CharClass::Exactly(' '));
    let remove = if spaces <= n {
        spaces
    } else {
        n
    };
    assert(s@.subrange(remove as int, s@.len() as int) =~= s@.skip(remove as int));
    s.substring_char(remove, chars.len())
}

/// The texts of `lines` joined with a newline between neighbours.
pub open spec fn join_lines(lines: Seq<Seq<char>>) -> Seq<char>
    decreases lines.len(),
{
    if lines.len() == 0 {
        Seq::empty()
    } else if lines.len() == 1 {
        lines[0]
    } else {
        join_lines(lines.drop_last()) + seq!['\n'] + lines.last()
    }
}

/// Length of `join_lines(lines)` plus one for every line: the space that the
/// lines take with a newline after each.
pub open spec fn lines_weight(lines: Seq<Seq<char>>) -> nat
    decreases lines.len(),
{
    if lines.len() == 0 {
        0
    } else {
        lines_weight(lines.drop_last()) + lines.last().len() + 1
    }
}

/// A joined text is one shorter than the weight of its lines.
pub proof fn lemma_join_len(lines: Seq<Seq<char>>)
    ensures
        lines.len() > 0 ==> join_lines(lines).len() + 1 == lines_weight(lines),
        lines.len() == 0 ==> join_lines(lines).len() == 0 && lines_weight(lines) == 0,
    decreases lines.len(),
{
    if lines.len() > 1 {
        lemma_join_len(lines.drop_last());
    } else if lines.len() == 1 {
        assert(lines.drop_last().len() == 0);
        assert(lines_weight(lines.drop_last()) == 0);
    }
}

/// Joins `lines[from..to]` with newlines.
pub(crate) fn join_range(lines: &Vec<String>, from: usize, to: usize) -> (text: String)
    requires
        from <= to <= lines.len(),
    ensures
        text@ == join_lines(lines.deep_view().subrange(from as int, to as int)),
{
    let ghost all = lines.deep_view().subrange(from as int, to as int);
    let mut text = String::new();
    let mut i: usize = from;
    while i < to
        invariant
            from <= i <= to <= lines.len(),
            all == lines.deep_view().subrange(from as int, to as int),
            text@ == join_lines(all.take(i - from)),
        decreases to - i,
    {
        proof {
            reveal_strlit("\n");
            assert(all.take(i + 1 - from).drop_last() =~= all.take(i - from));
            assert(all.take(i + 1 - from).last() == lines[i as int]@);
            assert("\n"@ =~= seq!['\n']);
        }
        if i > from {
            text.append("\n");
        }
        text.append(lines[i].as_str());
        i += 1;
        proof {
            if i == from + 1 {
                assert(text@ =~= all.take(1)[0]);
            }
        }
    }
    assert(all.take(to - from) =~= all);
    text
}

/// Joins `lines` with newlines.
pub fn join(lines: &Vec<String>) -> (text: String)
    ensures
        text@ == join_lines(lines.deep_view()),
{
    assert(lines.deep_view().subrange(0, lines.len() as int) =~= lines.deep_view());
    join_range(lines, 0, lines.len())
}

/// Whether `s` holds nothing but whitespace.
pub fn is_blank_str(s: &str) -> (b: bool)
    ensures
        b == is_blank(s@),
{
    let chars = to_chars(s);
    assert(chars@.subrange(0, chars@.len() as int) =~= s@);
    count_prefix(&chars, 0, chars.len(), CharClass::Whitespace) == chars.len()
}

/// `line` without one trailing carriage return.
pub open spec fn strip_cr(line: Seq<char>) -> Seq<char> {
    if line.len() > 0 && line.last() == '\r' {
        line.drop_last()
    } else {
        line
    }
}

/// The lines of `s`: the pieces between newlines, each without the carriage
/// return that stood before its newline. A newline at the very end opens no
/// further line, so the empty text has no lines.
pub open spec fn split_lines(s: Seq<char>) -> Seq<Seq<char>>
    decreases s.len(),
{
    if s.len() == 0 {
        Seq::empty()
    } else {
        let k = prefix_len(s, CharClass::Except('\n'));
        if k >= s.len() {
            seq![s]
        } else {
            seq![strip_cr(s.take(k as int))] + split_lines(s.skip(k + 1 as int))
        }
    }
}

/// The weight of a concatenation is the sum of the weights.
pub proof fn lemma_lines_weight_add(a: Seq<Seq<char>>, b: Seq<Seq<char>>)
    ensures
        lines_weight(a + b) == lines_weight(a) + lines_weight(b),
    decreases b.len(),
{
    if b.len() == 0 {
        assert(a + b =~= a);
    } else {
        assert((a + b).drop_last() =~= a + b.drop_last());
        assert((a + b).last() == b.last());
        lemma_lines_weight_add(a, b.drop_last());
    }
}

/// The lines of a text, with a newline after each, take no more room than
/// the text and one more newline.
pub proof fn lemma_split_lines_weight(s: Seq<char>)
    ensures
        lines_weight(split_lines(s)) <= s.len() + 1,
        s.len() == 0 ==> split_lines(s).len() == 0,
    decreases s.len(),
{
    if s.len() > 0 {
        let k = prefix_len(s, CharClass::Except('\n'));
        lemma_prefix_len(s, CharClass::Except('\n'));
        if k >= s.len() {
            assert(seq![s].drop_last() =~= Seq::<Seq<char>>::empty());
            assert(lines_weight(seq![s].drop_last()) == 0);
        } else {
            let head = seq![strip_cr(s.take(k as int))];
            let tail = split_lines(s.skip(k + 1 as int));
            lemma_split_lines_weight(s.skip(k + 1 as int));
            lemma_lines_weight_add(head, tail);
            assert(head.drop_last() =~= Seq::<Seq<char>>::empty());
            assert(lines_weight(head.drop_last()) == 0);
        }
    }
}

/// The lines of a text that ends with a newline, followed by the lines of
/// another text, are the lines of the two texts joined.
pub proof fn lemma_split_lines_add(x: Seq<char>, y: Seq<char>)
    requires
        x.len() > 0,
        x.last() == '\n',
    ensures
        split_lines(x + y) == split_lines(x) + split_lines(y),
    decreases x.len(),
{
    let class = CharClass::Except('\n');
    let k = prefix_len(x, class) as int;
    lemma_prefix_len(x, class);
    assert(k < x.len()) by {
        if k == x.len() {
            assert(class.has(x[x.len() - 1]));
        }
    }
    assert forall|i: int| 0 <= i < k implies class.has(#[trigger] (x + y)[i]) by {
        assert((x + y)[i] == x[i]);
    }
    assert((x + y)[k] == x[k]);
    lemma_prefix_len_is(x + y, class, k);
    assert((x + y).take(k) =~= x.take(k));
    assert((x + y).skip(k + 1) =~= x.skip(k + 1) + y);
    if k + 1 == x.len() {
        assert(x.skip(k + 1) =~= Seq::<char>::empty());
        assert(split_lines(x.skip(k + 1)) =~= Seq::<Seq<char>>::empty());
        assert(x.skip(k + 1) + y =~= y);
        assert(split_lines(x) =~= seq![strip_cr(x.take(k))]);
    } else {
        assert(x.skip(k + 1).last() == x.last());
        lemma_split_lines_add(x.skip(k + 1), y);
        assert(split_lines(x + y) =~= split_lines(x) + split_lines(y));
    }
}

/// A newline of `chars` that is not its last character, the one nearest to
/// the middle, if there is any.
fn newline_near_middle(chars: &Vec<char>) -> (r: Option<usize>)
    ensures
        match r {
            Some(m) => m + 1 < chars.len() && chars@[m as int] == '\n',
            None => forall|i: int| 0 <= i < chars.len() - 1 ==> chars@[i] != '\n',
        },
{
    let n = chars.len();
    if n < 2 {
        return None;
    }
    let mid = (n - 1) / 2;
    let mut up: usize = mid;
    let mut down: usize = mid;
    while up < n - 1 || down > 0
        invariant
            n == chars.len(),
            n >= 2,
            down <= mid <= up <= n - 1,
            forall|i: int| down <= i < up ==> chars@[i] != '\n',
        decreases (n - 1 - up) + down,
    {
        if up < n - 1 {
            if chars[up] == '\n' {
                return Some(up);
            }
            up += 1;
        }
        if down > 0 {
            if chars[down - 1] == '\n' {
                return Some(down - 1);
            }
            down -= 1;
        }
    }
    None
}

/// Appends the lines of `s` to `lines`.
///
/// Cutting a `&str` at a character costs time in proportion to the
/// character's position. So the text is halved at a newline near its middle
/// until single lines are left, which keeps the whole within
/// O(n log n) for a text of n characters.
fn push_lines(s: &str, lines: &mut Vec<String>)
    ensures
        final(lines).deep_view() == old(lines).deep_view() + split_lines(s@),
    decreases s@.len(),
{
    let ghost before = lines.deep_view();
    let chars = to_chars(s);
    let n = chars.len();
    if n == 0 {
        assert(before + split_lines(s@) =~= before);
        return ;
    }
    match newline_near_middle(&chars) {
        Some(m) => {
            let left = s.substring_char(0, m + 1);
            let right = s.substring_char(m + 1, n);
            proof {
                assert(s@ =~= left@ + right@);
                assert(left@.last() == chars@[m as int]);
                lemma_split_lines_add(left@, right@);
            }
            push_lines(left, lines);
            push_lines(right, lines);
            assert(lines.deep_view() =~= before + split_lines(s@));
        },
        None => {
            let class = CharClass::Except('\n');
            let ends = chars[n - 1] == '\n';
            let end = if ends {
                n - 1
            } else {
                n
            };
            let stop = if ends && end > 0 && chars[end - 1] == '\r' {
                end - 1
            } else {
                end
            };
            let line = slice_to_string(s, 0, stop);
            proof {
                assert forall|i: int| 0 <= i < end implies class.has(#[trigger] s@[i]) by {}
                lemma_prefix_len_is(s@, class, end as int);
                if ends {
                    let piece = s@.take(end as int);
                    if piece.len() > 0 {
                        assert(piece.last() == chars@[end - 1]);
                    }
                    assert(line@ =~= strip_cr(piece));
                    assert(s@.skip(end + 1) =~= Seq::<char>::empty());
                    assert(split_lines(s@.skip(end + 1)) =~= Seq::<Seq<char>>::empty());
                    assert(split_lines(s@) =~= seq![line@]);
                } else {
                    assert(line@ =~= s@);
                    assert(split_lines(s@) =~= seq![line@]);
                }
            }
            lines.push(line);
            assert(lines.deep_view() =~= before + split_lines(s@));
        },
    }
}

/// Splits `s` into its lines.
pub fn lines_of(s: &str) -> (lines: Vec<String>)
    ensures
        lines.deep_view() == split_lines(s@),
{
    let mut lines: Vec<String> = Vec::new();
    assert(lines.deep_view() =~= Seq::<Seq<char>>::empty());
    push_lines(s, &mut lines);
    assert(lines.deep_view() =~= split_lines(s@));
    lines
}

/// Number of blank lines that `lines` starts with.
pub open spec fn blank_prefix(lines: Seq<Seq<char>>) -> nat
    decreases lines.len(),
{
    if lines.len() > 0 && is_blank(lines[0]) {
        1 + blank_prefix(lines.drop_first())
    } else {
        0
    }
}

/// Number of blank lines that `lines` ends with.
pub open spec fn blank_suffix(lines: Seq<Seq<char>>) -> nat
    decreases lines.len(),
{
    if lines.len() > 0 && is_blank(lines.last()) {
        1 + blank_suffix(lines.drop_last())
    } else {
        0
    }
}

/// `lines` without the blank lines at its start and at its end.
pub open spec fn without_blank_edges(lines: Seq<Seq<char>>) -> Seq<Seq<char>> {
    let rest = lines.skip(blank_prefix(lines) as int);
    rest.take(rest.len() - blank_suffix(rest))
}

/// Drops the blank lines at both ends of `lines` and joins the rest with
/// newlines; blank lines in between stay.
pub fn trim_blank_lines(lines: Vec<String>) -> (text: String)
    ensures
        text@ == join_lines(without_blank_edges(lines.deep_view())),
{
    let ghost all = lines.deep_view();
    let n = lines.len();
    let mut a: usize = 0;
    assert(all.skip(0) =~= all);
    while a < n && is_blank_str(lines[a].as_str())
        invariant
            a <= n,
            n == lines.len(),
            all == lines.deep_view(),
            a + blank_prefix(all.skip(a as int)) == blank_prefix(all),
        decreases n - a,
    {
        proof {
            assert(all.skip(a as int)[0] == lines[a as int]@);
            assert(all.skip(a as int).drop_first() =~= all.skip(a + 1));
        }
        a += 1;
    }
    proof {
        if a < n {
            assert(all.skip(a as int)[0] == lines[a as int]@);
        }
        assert(blank_prefix(all.skip(a as int)) == 0);
    }
    let ghost rest = all.skip(a as int);
    let mut b: usize = n;
    assert(rest.take(n - a) =~= rest);
    while b > a && is_blank_str(lines[b - 1].as_str())
        invariant
            a <= b <= n,
            n == lines.len(),
            all == lines.deep_view(),
            rest == all.skip(a as int),
            (n - b) + blank_suffix(rest.take(b - a)) == blank_suffix(rest),
        decreases b - a,
    {
        proof {
            assert(rest.take(b - a).last() == lines[b - 1]@);
            assert(rest.take(b - a).drop_last() =~= rest.take(b - 1 - a));
        }
        b -= 1;
    }
    proof {
        if b > a {
            assert(rest.take(b - a).last() == lines[b - 1]@);
        }
        assert(blank_suffix(rest.take(b - a)) == 0);
        assert(all.subrange(a as int, b as int) =~= without_blank_edges(all));
    }
    join_range(&lines, a, b)
}

/// What `s` holds from byte `at` of its UTF-8 encoding on: nothing, if the
/// encoding is no longer than that.
pub open spec fn from_byte(s: Seq<char>, at: nat) -> Seq<char> {
    let bytes = encode_utf8(s);
    if at >= bytes.len() {
        Seq::empty()
    } else {
        decode_utf8(bytes.subrange(at as int, bytes.len() as int))
    }
}

/// Behind ASCII characters, bytes and characters count alike: where the
/// first `k` characters of `s` are ASCII, byte `k` starts character `k`, and
/// `s` holds from byte `k` on what it holds from character `k` on.
pub proof fn lemma_from_byte_behind_ascii(s: Seq<char>, k: nat)
    requires
        k <= s.len(),
        forall|i: int| 0 <= i < k ==> '\0' <= #[trigger] s[i] <= '\u{7f}',
    ensures
        k <= encode_utf8(s).len(),
        k == s.len() <==> k == encode_utf8(s).len(),
        is_char_boundary(encode_utf8(s), k as int),
        from_byte(s, k) == s.skip(k as int),
    decreases k,
{
    let bytes = encode_utf8(s);
    encode_utf8_valid_utf8(s);
    if k == 0 {
        encode_utf8_decode_utf8(s);
        assert(bytes.subrange(0, bytes.len() as int) =~= bytes);
        assert(s.skip(0) =~= s);
        if s.len() > 0 {
            encode_utf8_first_scalar(s);
        } else {
            assert(from_byte(s, 0) =~= s.skip(0));
        }
    } else {
        let rest = s.drop_first();
        let tail = encode_utf8(rest);
        assert forall|i: int| 0 <= i < k - 1 implies '\0' <= #[trigger] rest[i] <= '\u{7f}' by {
            assert(rest[i] == s[i + 1]);
        }
        lemma_from_byte_behind_ascii(rest, (k - 1) as nat);
        encode_utf8_first_scalar(s);
        assert('\0' <= s[0] <= '\u{7f}');
        assert(bytes.len() == tail.len() + 1);
        assert(pop_first_scalar(bytes) =~= tail);
        assert(rest.skip(k - 1) =~= s.skip(k as int));
        if k < bytes.len() {
            assert(bytes.subrange(k as int, bytes.len() as int) =~= tail.subrange(
                k - 1,
                tail.len() as int,
            ));
        }
    }
}

} // verus!
