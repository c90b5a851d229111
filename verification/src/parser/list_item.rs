//! List items: bullet markers (`-`, `+`, `*`) and ordered markers (up to
//! nine digits and `.` or `)`), and the rule that tells whether a line
//! continues a list.

use vstd::prelude::*;
use crate::node::ListType;
use vstd::string::StringSliceAdditionalSpecFns;
use vstd::utf8::{encode_utf8, encode_utf8_decode_utf8, is_char_boundary};
use crate::parser::helpers::{
    count_prefix,
    from_byte,
    is_blank,
    lemma_from_byte_behind_ascii,
    lemma_prefix_len,
    prefix_len,
    slice_to_string,
    to_chars,
    CharClass,
};

verus! {

/// A list marker.
#[derive(Debug, Clone, Copy, PartialEq, Eq, Structural)]
pub enum ListMarker {
    /// A bullet: `-`, `+` or `*`.
    Bullet(char),
    /// A number and its delimiter.
    Ordered {
        /// The number.
        start: usize,
        /// The delimiter: `.` or `)`.
        delimiter: char,
    },
}

impl ListMarker {
    /// The list type and start number that a list opened by this marker has.
    pub open spec fn list_type(self) -> (ListType, usize) {
        match self {
            ListMarker::Bullet(_) => (ListType::Bullet, 1),
            ListMarker::Ordered { start, delimiter } => (ListType::Ordered { delimiter }, start),
        }
    }

    /// Two markers are of the same type when both are the same bullet, or
    /// both are ordered with the same delimiter, whatever their numbers.
    pub open spec fn same_type(self, other: ListMarker) -> bool {
        match (self, other) {
            (ListMarker::Bullet(a), ListMarker::Bullet(b)) => a == b,
            (
                ListMarker::Ordered { delimiter: a, .. },
                ListMarker::Ordered { delimiter: b, .. },
            ) => a == b,
            _ => false,
        }
    }

    /// What holds of every marker that a line starts with: a bullet is one
    /// of `-`, `+`, `*`; a delimiter is `.` or `)`, and the number before it
    /// has at most nine digits.
    pub open spec fn well_formed(self) -> bool {
        match self {
            ListMarker::Bullet(c) => c == '-' || c == '+' || c == '*',
            ListMarker::Ordered { start, delimiter } => (delimiter == '.' || delimiter == ')')
                && start <= 999_999_999,
        }
    }

    /// The list type and the start number of the list that this marker opens.
    pub fn to_list_type(&self) -> (r: (ListType, usize))
        ensures
            r == self.list_type(),
    {
        match self {
            ListMarker::Bullet(_) => (ListType::Bullet, 1),
            ListMarker::Ordered { start, delimiter } => (
                ListType::Ordered { delimiter: *delimiter },
                *start,
            ),
        }
    }

    /// Whether an item with marker `other` can belong to a list opened by
    /// this marker.
    pub fn is_same_type(&self, other: &ListMarker) -> (b: bool)
        ensures
            b == self.same_type(*other),
    {
        match self {
            ListMarker::Bullet(a) => match other {
                ListMarker::Bullet(b) => *a == *b,
                _ => false,
            },
            ListMarker::Ordered { delimiter: a, .. } => match other {
                ListMarker::Ordered { delimiter: b, .. } => *a == *b,
                _ => false,
            },
        }
    }
}

/// Being of the same type is reflexive, symmetric and transitive.
pub proof fn lemma_same_type_is_equivalence(a: ListMarker, b: ListMarker, c: ListMarker)
    ensures
        a.same_type(a),
        a.same_type(b) == b.same_type(a),
        a.same_type(b) && b.same_type(c) ==> a.same_type(c),
        a.same_type(b) ==> a.list_type().0 == b.list_type().0,
{
}

/// The start of a list item.
#[derive(Debug, Clone, PartialEq)]
pub struct ListItemStart {
    /// The marker.
    pub marker: ListMarker,
    /// Number of spaces before the marker, 0 to 3.
    pub indent: usize,
    /// Position at which the item's content starts.
    pub content_indent: usize,
    /// What the first line holds from that position on.
    pub content: String,
}

/// Model of a [`ListItemStart`].
pub struct ItemStartView {
    pub marker: ListMarker,
    pub indent: nat,
    pub content_indent: nat,
    pub content: Seq<char>,
}

impl View for ListItemStart {
    type V = ItemStartView;

    open spec fn view(&self) -> ItemStartView {
        ItemStartView {
            marker: self.marker,
            indent: self.indent as nat,
            content_indent: self.content_indent as nat,
            content: self.content@,
        }
    }
}

impl ItemStartView {
    /// What holds of every start that a line gives: the marker is well
    /// formed and stands behind at most three spaces, and the content starts
    /// behind the marker, at most fourteen characters further on.
    pub open spec fn well_formed(self) -> bool {
        &&& self.marker.well_formed()
        &&& self.indent <= 3
        &&& self.indent < self.content_indent <= self.indent + 14
    }

    /// This start with the content that `line` holds from byte
    /// `content_indent` of its UTF-8 encoding on: nothing, if the encoding is
    /// no longer than that.
    pub open spec fn with_content_from(self, line: Seq<char>) -> ItemStartView {
        ItemStartView { content: from_byte(line, self.content_indent), ..self }
    }

    /// This start with the content that `line` holds from character
    /// `content_indent` on: nothing, if the line is no longer than that.
    /// Behind a marker this is the same, because only ASCII characters stand
    /// before the content.
    pub open spec fn with_content_from_char(self, line: Seq<char>) -> ItemStartView {
        ItemStartView {
            content: if self.content_indent >= line.len() {
                Seq::empty()
            } else {
                line.skip(self.content_indent as int)
            },
            ..self
        }
    }
}

impl ListItemStart {
    /// Replaces the content by what `line` holds from byte `content_indent`
    /// on, which is nothing if the line has no more bytes than that. The
    /// position must not lie inside a character.
    pub fn with_content_from(self, line: &str) -> (r: ListItemStart)
        requires
            self.content_indent >= line.spec_bytes().len() || is_char_boundary(
                line.spec_bytes(),
                self.content_indent as int,
            ),
        ensures
            r@ == self@.with_content_from(line@),
            r.marker == self.marker,
            r.indent == self.indent,
            r.content_indent == self.content_indent,
            encode_utf8(r.content@) == if self.content_indent >= line.spec_bytes().len() {
                Seq::<u8>::empty()
            } else {
                line.spec_bytes().subrange(
                    self.content_indent as int,
                    line.spec_bytes().len() as int,
                )
            },
    {
        let length = line.as_bytes().len();
        let content = if self.content_indent >= length {
            assert(encode_utf8(Seq::<char>::empty()) =~= Seq::<u8>::empty());
            String::new()
        } else {
            let parts = line.split_at(self.content_indent);
            proof {
                encode_utf8_decode_utf8(parts.1@);
            }
            parts.1.to_owned()
        };
        ListItemStart {
            marker: self.marker,
            indent: self.indent,
            content_indent: self.content_indent,
            content,
        }
    }

    /// The start of a bullet item.
    pub fn bullet(marker_char: char, indent: usize, content_indent: usize, content: &str) -> (r:
        ListItemStart)
        ensures
            r@ == (ItemStartView {
                marker: ListMarker::Bullet(marker_char),
                indent: indent as nat,
                content_indent: content_indent as nat,
                content: content@,
            }),
    {
        ListItemStart {
            marker: ListMarker::Bullet(marker_char),
            indent,
            content_indent,
            content: String::from_str(content),
        }
    }

    /// The start of an ordered item.
    pub fn ordered(
        start: usize,
        delimiter: char,
        indent: usize,
        content_indent: usize,
        content: &str,
    ) -> (r: ListItemStart)
        ensures
            r@ == (ItemStartView {
                marker: ListMarker::Ordered { start, delimiter },
                indent: indent as nat,
                content_indent: content_indent as nat,
                content: content@,
            }),
    {
        ListItemStart {
            marker: ListMarker::Ordered { start, delimiter },
            indent,
            content_indent,
            content: String::from_str(content),
        }
    }
}

/// A list item starts.
#[derive(Debug, Clone, PartialEq)]
pub enum ListItemStartReason {
    /// The line starts a list item.
    Started(ListItemStart),
}

/// Why a line starts no list item.
#[derive(Debug, Clone, Copy, PartialEq, Eq, Structural)]
pub enum ListItemNotStartReason {
    /// Four or more spaces before the text.
    CodeBlockIndented,
    /// No valid marker.
    NotListMarker,
}

/// A list ends.
#[derive(Debug, Clone, Copy, PartialEq, Eq, Structural)]
pub enum ListEndReason {
    /// The line belongs to whatever follows the list and is to be read again.
    Reprocess,
}

/// One line of an item's content.
#[derive(Debug, Clone, PartialEq)]
pub struct ItemLine {
    /// The text.
    pub content: String,
    /// Whether the line is plain text even where it looks like a marker.
    pub text_only: bool,
}

/// Model of an [`ItemLine`].
pub struct ItemLineView {
    pub content: Seq<char>,
    pub text_only: bool,
}

impl View for ItemLine {
    type V = ItemLineView;

    open spec fn view(&self) -> ItemLineView {
        ItemLineView { content: self.content@, text_only: self.text_only }
    }
}

impl DeepView for ItemLine {
    type V = ItemLineView;

    open spec fn deep_view(&self) -> ItemLineView {
        self@
    }
}

impl ItemLine {
    /// A line with the given text and flag.
    pub fn new(content: String, text_only: bool) -> (r: ItemLine)
        ensures
            r@ == (ItemLineView { content: content@, text_only }),
    {
        ItemLine { content, text_only }
    }

    /// A line that is read as Markdown.
    pub fn text(content: String) -> (r: ItemLine)
        ensures
            r@ == (ItemLineView { content: content@, text_only: false }),
    {
        ItemLine { content, text_only: false }
    }

    /// A line that is plain text.
    pub fn text_only(content: String) -> (r: ItemLine)
        ensures
            r@ == (ItemLineView { content: content@, text_only: true }),
    {
        ItemLine { content, text_only: true }
    }

    /// An empty line.
    pub fn blank() -> (r: ItemLine)
        ensures
            r@ == (ItemLineView { content: Seq::empty(), text_only: false }),
    {
        ItemLine { content: String::new(), text_only: false }
    }
}

/// Why a list goes on.
#[derive(Debug, Clone, PartialEq)]
pub enum ListContinueReason {
    /// The line is blank.
    Blank,
    /// The line starts a further item of the list.
    NewItem(ListItemStart),
    /// The line belongs to the current item.
    ContinuationLine(ItemLine),
}

/// Model of a [`ListContinueReason`].
pub enum ContinueView {
    Blank,
    NewItem(ItemStartView),
    ContinuationLine(ItemLineView),
}

impl View for ListContinueReason {
    type V = ContinueView;

    open spec fn view(&self) -> ContinueView {
        match self {
            ListContinueReason::Blank => ContinueView::Blank,
            ListContinueReason::NewItem(start) => ContinueView::NewItem(start@),
            ListContinueReason::ContinuationLine(line) => ContinueView::ContinuationLine(line@),
        }
    }
}

/// Value of a run of decimal digits.
pub open spec fn decimal_value(digits: Seq<char>) -> nat
    decreases digits.len(),
{
    if digits.len() == 0 {
        0
    } else {
        (10 * decimal_value(digits.drop_last()) + (digits.last() as nat - '0' as nat)) as nat
    }
}

/// `s` is a space or a tab or there is none: what must follow a marker.
pub open spec fn gap_or_end(s: Seq<char>) -> bool {
    s.len() == 0 || s[0] == ' ' || s[0] == '\t'
}

/// Number of spaces at the start of `s`, four at most.
pub open spec fn padding(s: Seq<char>) -> nat {
    let spaces = prefix_len(s, CharClass::Exactly(' '));
    if spaces < 4 {
        spaces
    } else {
        4
    }
}

/// The bullet item that `s` starts, if any; `indent` spaces stood before
/// `s`. The marker is one of `-`, `+`, `*`; a space, a tab or the end of the
/// line follows it. The content starts after the marker and up to four
/// spaces. The item's content is left empty.
pub open spec fn bullet_marker(s: Seq<char>, indent: nat) -> Option<ItemStartView> {
    if s.len() > 0 && (s[0] == '-' || s[0] == '+' || s[0] == '*') && gap_or_end(s.skip(1)) {
        Some(
            ItemStartView {
                marker: ListMarker::Bullet(s[0]),
                indent,
                content_indent: indent + 1 + padding(s.skip(1)),
                content: Seq::empty(),
            },
        )
    } else {
        None
    }
}

/// The ordered item that `s` starts, if any; `indent` spaces stood before
/// `s`. The marker is one to nine digits and `.` or `)`; a space, a tab or
/// the end of the line follows it. The content starts after the marker and
/// up to four spaces. The item's content is left empty.
pub open spec fn ordered_marker(s: Seq<char>, indent: nat) -> Option<ItemStartView> {
    let digits = prefix_len(s, CharClass::Digit);
    let rest = s.skip(digits as int);
    if 1 <= digits <= 9 && rest.len() > 0 && (rest[0] == '.' || rest[0] == ')') && gap_or_end(
        rest.skip(1),
    ) {
        Some(
            ItemStartView {
                marker: ListMarker::Ordered {
                    start: decimal_value(s.take(digits as int)) as usize,
                    delimiter: rest[0],
                },
                indent,
                content_indent: indent + digits + 1 + padding(rest.skip(1)),
                content: Seq::empty(),
            },
        )
    } else {
        None
    }
}

/// The marker that `s` starts with, bullet or ordered.
pub open spec fn any_marker(s: Seq<char>, indent: nat) -> Option<ItemStartView> {
    match bullet_marker(s, indent) {
        Some(start) => Some(start),
        None => ordered_marker(s, indent),
    }
}

/// What `line` is as the start of a list item: at most three spaces, then a
/// marker. The item's content is the line from `content_indent` on.
pub open spec fn item_start(line: Seq<char>) -> Result<ItemStartView, ListItemNotStartReason> {
    let indent = prefix_len(line, CharClass::Exactly(' '));
    if indent > 3 {
        Err(ListItemNotStartReason::CodeBlockIndented)
    } else {
        match any_marker(line.skip(indent as int), indent) {
            Some(start) => Ok(start.with_content_from_char(line)),
            None => Err(ListItemNotStartReason::NotListMarker),
        }
    }
}

/// Before the content of an item stand only ASCII characters: spaces, the
/// marker, and spaces. So the content starts at a character, at the same
/// position whether bytes are counted or characters.
pub proof fn lemma_content_position(line: Seq<char>)
    ensures
        any_marker(
            line.skip(prefix_len(line, CharClass::Exactly(' ')) as int),
            prefix_len(line, CharClass::Exactly(' ')),
        ) matches Some(start) ==> {
            &&& start.content_indent <= line.len()
            &&& start.content_indent >= encode_utf8(line).len() || is_char_boundary(
                encode_utf8(line),
                start.content_indent as int,
            )
            &&& start.with_content_from(line) == start.with_content_from_char(line)
        },
{
    let indent = prefix_len(line, CharClass::Exactly(' '));
    lemma_prefix_len(line, CharClass::Exactly(' '));
    let s = line.skip(indent as int);
    if any_marker(s, indent) is Some {
        let start = any_marker(s, indent)->Some_0;
        let at = start.content_indent;
        if bullet_marker(s, indent) is Some {
            let gap = s.skip(1);
            lemma_prefix_len(gap, CharClass::Exactly(' '));
            assert forall|i: int| 0 <= i < at implies '\0' <= #[trigger] line[i] <= '\u{7f}' by {
                if i < indent {
                    assert(CharClass::Exactly(' ').has(line[i]));
                } else if i == indent {
                    assert(line[i] == s[0]);
                } else {
                    assert(line[i] == gap[i - indent - 1]);
                    assert(CharClass::Exactly(' ').has(gap[i - indent - 1]));
                }
            }
        } else {
            let digits = prefix_len(s, CharClass::Digit);
            lemma_prefix_len(s, CharClass::Digit);
            let rest = s.skip(digits as int);
            let gap = rest.skip(1);
            lemma_prefix_len(gap, CharClass::Exactly(' '));
            assert forall|i: int| 0 <= i < at implies '\0' <= #[trigger] line[i] <= '\u{7f}' by {
                if i < indent {
                    assert(CharClass::Exactly(' ').has(line[i]));
                } else if i < indent + digits {
                    assert(line[i] == s[i - indent]);
                    assert(CharClass::Digit.has(s[i - indent]));
                } else if i == indent + digits {
                    assert(line[i] == rest[0]);
                } else {
                    assert(line[i] == gap[i - indent - digits - 1]);
                    assert(CharClass::Exactly(' ').has(gap[i - indent - digits - 1]));
                }
            }
        }
        lemma_from_byte_behind_ascii(line, at);
        if at == line.len() {
            assert(line.skip(at as int) =~= Seq::<char>::empty());
        }
    }
}

/// The start of an item that a line gives is well formed, and its content
/// is shorter than the line.
pub proof fn lemma_item_start_well_formed(line: Seq<char>)
    ensures
        item_start(line) matches Ok(start) ==> start.well_formed() && start.indent == prefix_len(
            line,
            CharClass::Exactly(' '),
        ) && start.content.len() < line.len(),
{
    let indent = prefix_len(line, CharClass::Exactly(' '));
    lemma_prefix_len(line, CharClass::Exactly(' '));
    if item_start(line) is Ok {
        let s = line.skip(indent as int);
        lemma_prefix_len(s, CharClass::Digit);
        if bullet_marker(s, indent) is Some {
            lemma_prefix_len(s.skip(1), CharClass::Exactly(' '));
        } else {
            let digits = prefix_len(s, CharClass::Digit);
            let run = s.take(digits as int);
            assert forall|i: int| 0 <= i < run.len() implies CharClass::Digit.has(
                #[trigger] run[i],
            ) by {
                assert(run[i] == s[i]);
            }
            lemma_decimal_value_bound(run);
            assert(pow10(digits) <= 1_000_000_000) by {
                reveal_with_fuel(pow10, 10);
            }
            lemma_prefix_len(s.skip(digits as int).skip(1), CharClass::Exactly(' '));
        }
    }
}

/// `line` as a continuation line: without `min(indent, current_content_indent)`
/// leading spaces, where `indent` is the number of spaces it starts with.
pub open spec fn continuation(
    line: Seq<char>,
    current_content_indent: nat,
    text_only: bool,
) -> ItemLineView {
    let indent = prefix_len(line, CharClass::Exactly(' '));
    ItemLineView {
        content: line.skip(
            if indent <= current_content_indent {
                indent as int
            } else {
                current_content_indent as int
            },
        ),
        text_only,
    }
}

/// What `line` means for an open list whose first item has the marker
/// `marker` and the content position `first_content_indent`, and whose
/// current item has the content position `current_content_indent`.
///
/// A blank line leaves the list open. A line indented less than the current
/// item's content that starts an item continues the list if the marker is of
/// the list's type, and ends it if not. A line with four or more spaces that
/// reaches the first item's content is plain text of the current item. Any
/// other line that reaches the first item's content continues the current
/// item; the rest end the list.
pub open spec fn list_end(
    line: Seq<char>,
    marker: ListMarker,
    first_content_indent: nat,
    current_content_indent: nat,
) -> Result<ListEndReason, ContinueView> {
    let indent = prefix_len(line, CharClass::Exactly(' '));
    if is_blank(line) {
        Err(ContinueView::Blank)
    } else if indent < current_content_indent && item_start(line) is Ok {
        if marker.same_type(item_start(line)->Ok_0.marker) {
            Err(ContinueView::NewItem(item_start(line)->Ok_0))
        } else {
            Ok(ListEndReason::Reprocess)
        }
    } else if indent >= first_content_indent {
        Err(
            ContinueView::ContinuationLine(
                continuation(
                    line,
                    current_content_indent,
                    indent < current_content_indent && item_start(line) == Err::<
                        ItemStartView,
                        ListItemNotStartReason,
                    >(ListItemNotStartReason::CodeBlockIndented),
                ),
            ),
        )
    } else {
        Ok(ListEndReason::Reprocess)
    }
}

/// A list goes on with a new item only if the item's marker is of the list's
/// type.
pub proof fn lemma_new_item_has_list_type(
    line: Seq<char>,
    marker: ListMarker,
    first_content_indent: nat,
    current_content_indent: nat,
)
    ensures
        list_end(line, marker, first_content_indent, current_content_indent) matches Err(
            ContinueView::NewItem(start),
        ) ==> marker.same_type(start.marker) && item_start(line) == Ok::<
            ItemStartView,
            ListItemNotStartReason,
        >(start),
{
}

/// Number of spaces at the start of `chars[from..]`, four at most.
fn padding_at(chars: &Vec<char>, from: usize) -> (n: usize)
    requires
        from <= chars.len(),
    ensures
        n == padding(chars@.skip(from as int)),
        from + n <= chars.len(),
        n <= 4,
{
    assert(chars@.subrange(from as int, chars@.len() as int) =~= chars@.skip(from as int));
    let spaces = count_prefix(chars, from, chars.len(), CharClass::Exactly(' '));
    if spaces < 4 {
        spaces
    } else {
        4
    }
}

/// Whether a space, a tab or the end follows at `chars[from]`.
fn gap_or_end_at(chars: &Vec<char>, from: usize) -> (b: bool)
    requires
        from <= chars.len(),
    ensures
        b == gap_or_end(chars@.skip(from as int)),
{
    if from == chars.len() {
        true
    } else {
        assert(chars@.skip(from as int)[0] == chars@[from as int]);
        chars[from] == ' ' || chars[from] == '\t'
    }
}

/// Recognises a bullet marker at the start of `s`; `indent` spaces stood
/// before `s`.
pub fn try_bullet_marker(s: &str, indent: usize) -> (r: Option<ListItemStart>)
    requires
        indent <= usize::MAX - 5,
    ensures
        match r {
            Some(start) => bullet_marker(s@, indent as nat) == Some(start@),
            None => bullet_marker(s@, indent as nat) is None,
        },
{
    let chars = to_chars(s);
    if chars.len() == 0 {
        return None;
    }
    let first = chars[0];
    if first != '-' && first != '+' && first != '*' {
        return None;
    }
    if !gap_or_end_at(&chars, 1) {
        return None;
    }
    let content_indent = indent + 1 + padding_at(&chars, 1);
    Some(
        ListItemStart {
            marker: ListMarker::Bullet(first),
            indent,
            content_indent,
            content: String::new(),
        },
    )
}

/// Ten to the power `n`.
pub open spec fn pow10(n: nat) -> nat
    decreases n,
{
    if n == 0 {
        1
    } else {
        10 * pow10((n - 1) as nat)
    }
}

/// A run of `n` digits has a value below ten to the power `n`.
pub proof fn lemma_decimal_value_bound(digits: Seq<char>)
    requires
        forall|i: int| 0 <= i < digits.len() ==> CharClass::Digit.has(#[trigger] digits[i]),
    ensures
        decimal_value(digits) < pow10(digits.len()),
    decreases digits.len(),
{
    if digits.len() > 0 {
        let init = digits.drop_last();
        assert forall|i: int| 0 <= i < init.len() implies CharClass::Digit.has(
            #[trigger] init[i],
        ) by {
            assert(init[i] == digits[i]);
        }
        lemma_decimal_value_bound(init);
        assert(CharClass::Digit.has(digits[digits.len() - 1]));
    }
}

/// Recognises an ordered marker at the start of `s`; `indent` spaces stood
/// before `s`.
pub fn try_ordered_marker(s: &str, indent: usize) -> (r: Option<ListItemStart>)
    requires
        indent <= usize::MAX - 14,
    ensures
        match r {
            Some(start) => ordered_marker(s@, indent as nat) == Some(start@),
            None => ordered_marker(s@, indent as nat) is None,
        },
{
    let chars = to_chars(s);
    let n = chars.len();
    assert(chars@.subrange(0, n as int) =~= s@);
    let digits = count_prefix(&chars, 0, n, CharClass::Digit);
    if digits == 0 || digits > 9 {
        return None;
    }
    let mut value: u32 = 0;
    let mut i: usize = 0;
    proof {
        lemma_prefix_len(s@, CharClass::Digit);
        assert(s@.take(0) =~= Seq::<char>::empty());
    }
    while i < digits
        invariant
            i <= digits <= n,
            n == chars.len(),
            digits <= 9,
            chars@ == s@,
            forall|k: int| 0 <= k < digits ==> CharClass::Digit.has(#[trigger] s@[k]),
            value == decimal_value(s@.take(i as int)),
            value < pow10(i as nat),
        decreases digits - i,
    {
        let c = chars[i];
        proof {
            assert(CharClass::Digit.has(s@[i as int]));
            assert(s@.take(i + 1).drop_last() =~= s@.take(i as int));
            assert(s@.take(i + 1).last() == c);
            lemma_pow10_step(i as nat, digits as nat);
        }
        value = value * 10 + (c as u32 - '0' as u32);
        i += 1;
    }
    let ghost rest = s@.skip(digits as int);
    if digits == n {
        return None;
    }
    let delimiter = chars[digits];
    assert(delimiter == rest[0]);
    if delimiter != '.' && delimiter != ')' {
        return None;
    }
    assert(rest.skip(1) =~= chars@.skip(digits + 1));
    if !gap_or_end_at(&chars, digits + 1) {
        return None;
    }
    let content_indent = indent + digits + 1 + padding_at(&chars, digits + 1);
    Some(
        ListItemStart {
            marker: ListMarker::Ordered { start: value as usize, delimiter },
            indent,
            content_indent,
            content: String::new(),
        },
    )
}

/// Below nine digits a power of ten is at most 10^8, and the next power is
/// ten times as much.
proof fn lemma_pow10_step(k: nat, digits: nat)
    requires
        k < digits <= 9,
    ensures
        pow10(k) <= 100_000_000,
        pow10(k + 1) == 10 * pow10(k),
{
    reveal_with_fuel(pow10, 10);
}

/// Recognises the start of a list item.
pub fn try_start(line: &str) -> (r: Result<ListItemStartReason, ListItemNotStartReason>)
    ensures
        match r {
            Ok(ListItemStartReason::Started(start)) => item_start(line@) == Ok::<
                ItemStartView,
                ListItemNotStartReason,
            >(start@) && start@.well_formed(),
            Err(e) => item_start(line@) == Err::<ItemStartView, ListItemNotStartReason>(e),
        },
{
    proof {
        lemma_item_start_well_formed(line@);
    }
    let chars = to_chars(line);
    let n = chars.len();
    assert(chars@.subrange(0, n as int) =~= line@);
    let indent = count_prefix(&chars, 0, n, CharClass::Exactly(' '));
    if indent > 3 {
        return Err(ListItemNotStartReason::CodeBlockIndented);
    }
    let after_indent = line.substring_char(indent, n);
    assert(after_indent@ =~= line@.skip(indent as int));
    let found = match try_bullet_marker(after_indent, indent) {
        Some(start) => Some(start),
        None => try_ordered_marker(after_indent, indent),
    };
    proof {
        lemma_content_position(line@);
    }
    match found {
        Some(start) => Ok(ListItemStartReason::Started(start.with_content_from(line))),
        None => Err(ListItemNotStartReason::NotListMarker),
    }
}

/// Decides whether `line` ends an open list (`Ok`) or continues it (`Err`,
/// with the way it does).
pub fn try_end(
    line: &str,
    marker: &ListMarker,
    first_content_indent: usize,
    current_content_indent: usize,
) -> (r: Result<ListEndReason, ListContinueReason>)
    ensures
        match r {
            Ok(end) => list_end(
                line@,
                *marker,
                first_content_indent as nat,
                current_content_indent as nat,
            ) == Ok::<ListEndReason, ContinueView>(end),
            Err(go_on) => list_end(
                line@,
                *marker,
                first_content_indent as nat,
                current_content_indent as nat,
            ) == Err::<ListEndReason, ContinueView>(go_on@),
        },
{
    let chars = to_chars(line);
    let n = chars.len();
    assert(chars@.subrange(0, n as int) =~= line@);
    if count_prefix(&chars, 0, n, CharClass::Whitespace) == n {
        return Err(ListContinueReason::Blank);
    }
    let indent = count_prefix(&chars, 0, n, CharClass::Exactly(' '));
    let strip = if indent <= current_content_indent {
        indent
    } else {
        current_content_indent
    };
    assert(line@.subrange(strip as int, n as int) =~= line@.skip(strip as int));
    let mut text_only = false;
    if indent < current_content_indent {
        match try_start(line) {
            Ok(ListItemStartReason::Started(new_start)) => {
                if marker.is_same_type(&new_start.marker) {
                    return Err(ListContinueReason::NewItem(new_start));
                }
                return Ok(ListEndReason::Reprocess);
            },
            Err(ListItemNotStartReason::CodeBlockIndented) => {
                text_only = true;
            },
            Err(ListItemNotStartReason::NotListMarker) => {},
        }
    }
    if indent >= first_content_indent {
        let content = slice_to_string(line, strip, n);
        return Err(ListContinueReason::ContinuationLine(ItemLine::new(content, text_only)));
    }
    Ok(ListEndReason::Reprocess)
}

} // verus!
