use vstd::prelude::*;
use crate::decimal::{ascii_tail, decimal, fill_u64, lemma_decimal_len, pow10};

verus! {

/// The capability that a placeholder asks of its argument.
#[derive(Debug, PartialEq, Eq, Clone, Copy, Structural)]
pub enum FormatArgType {
    Debug { pretty: bool },
    Display,
}

/// One unit of a compiled template.
#[derive(Debug, PartialEq)]
pub enum Piece {
    /// A placeholder: what it asks of its argument, and the name of the value
    /// that it captures; a placeholder without a name takes the next
    /// positional argument.
    Arg { arg_type: FormatArgType, implicit_capture: Option<String> },
    /// Text to be written as it stands.
    Literal(String),
}

/// What a piece stands for in contracts.
pub enum PieceView {
    Arg { arg_type: FormatArgType, implicit_capture: Option<Seq<char>> },
    Literal(Seq<char>),
}

impl PieceView {
    /// Whether the piece takes its value from the positional arguments.
    pub open spec fn is_positional_arg(self) -> bool {
        self matches PieceView::Arg { implicit_capture: None, .. }
    }
}

impl View for Piece {
    type V = PieceView;

    open spec fn view(&self) -> PieceView {
        match self {
            Piece::Arg { arg_type, implicit_capture: Some(name) } => PieceView::Arg {
                arg_type: *arg_type,
                implicit_capture: Some(name@),
            },
            Piece::Arg { arg_type, implicit_capture: None } => PieceView::Arg {
                arg_type: *arg_type,
                implicit_capture: None,
            },
            Piece::Literal(text) => PieceView::Literal(text@),
        }
    }
}

impl Piece {
    /// Whether the piece takes its value from the positional arguments.
    pub fn is_positional_arg(&self) -> (b: bool)
        ensures
            b == self@.is_positional_arg(),
    {
        match self {
            Piece::Arg { implicit_capture: None, .. } => true,
            _ => false,
        }
    }
}

/// The views of a sequence of pieces.
pub open spec fn piece_views(pieces: Seq<Piece>) -> Seq<PieceView> {
    Seq::new(pieces.len(), |i: int| pieces[i]@)
}

/// Why a template, or its use with a list of arguments, is refused.
#[derive(Debug, PartialEq, Eq, Clone, Copy, Structural)]
pub enum TemplateError {
    /// A `}` that neither closes a placeholder nor is doubled.
    UnmatchedRightBrace,
    /// A `{` that opens none of the accepted placeholders and is not doubled.
    InvalidPlaceholder,
    /// Fewer positional arguments than placeholders that take one.
    MissingArguments { required: usize, supplied: usize },
    /// More positional arguments than placeholders that take one; `index` is
    /// the position of the first argument that nothing uses.
    UnusedArgument { index: usize },
    /// A placeholder captures a name under which no value is supplied;
    /// `piece` is the position of the placeholder among the pieces.
    UnknownName { piece: usize },
    /// A value does not have the form that its placeholder asks for; `piece`
    /// is the position of the placeholder among the pieces.
    MissingForm { piece: usize },
}

/// The text of a number in a message.
pub open spec fn count_text(n: usize) -> Seq<char> {
    decimal(n as nat)
}

/// What a template error says.
pub open spec fn message_text(e: TemplateError) -> Seq<char> {
    match e {
        TemplateError::UnmatchedRightBrace => "format string contains an unmatched right brace"@,
        TemplateError::InvalidPlaceholder =>
            "invalid format string: expected `{{`, `{}`, `{:?}` or `{:#?}`"@,
        TemplateError::MissingArguments { required, supplied } => "format string requires "@
            + count_text(required) + " arguments but "@ + count_text(supplied) + (if supplied == 1 {
            " was supplied"@
        } else {
            " were supplied"@
        }),
        TemplateError::UnusedArgument { .. } => "argument never used"@,
        TemplateError::UnknownName { .. } => "no value is supplied under this name"@,
        TemplateError::MissingForm { .. } => "the value does not have the form asked for"@,
    }
}

/// Appends the decimal digits of `n` to `text`.
fn push_count(text: &mut String, n: usize)
    ensures
        final(text)@ == old(text)@ + count_text(n),
{
    let mut buf: [u8; 20] = [0; 20];
    proof {
        reveal_with_fuel(pow10, 21);
        lemma_decimal_len(n as nat, 20);
    }
    let at = fill_u64(n as u64, &mut buf);
    text.append(ascii_tail(&buf, at));
}

impl TemplateError {
    /// What the error says, for the author of the template.
    pub fn message(&self) -> (text: String)
        ensures
            text@ == message_text(*self),
    {
        match self {
            TemplateError::UnmatchedRightBrace => String::from_str(
                "format string contains an unmatched right brace",
            ),
            TemplateError::InvalidPlaceholder => String::from_str(
                "invalid format string: expected `{{`, `{}`, `{:?}` or `{:#?}`",
            ),
            TemplateError::MissingArguments { required, supplied } => {
                let mut text = String::from_str("format string requires ");
                push_count(&mut text, *required);
                text.append(" arguments but ");
                push_count(&mut text, *supplied);
                if *supplied == 1 {
                    text.append(" was supplied");
                } else {
                    text.append(" were supplied");
                }
                text
            },
            TemplateError::UnusedArgument { .. } => String::from_str("argument never used"),
            TemplateError::UnknownName { .. } => String::from_str(
                "no value is supplied under this name",
            ),
            TemplateError::MissingForm { .. } => String::from_str(
                "the value does not have the form asked for",
            ),
        }
    }
}

/// What `char::is_alphanumeric` answers for a character.
pub uninterp spec fn alphanumeric(c: char) -> bool;

/// What `char::is_numeric` answers for a character.
pub uninterp spec fn numeric(c: char) -> bool;

/// `char::is_alphanumeric`: whether Unicode classes the character as a letter
/// or a number.
#[verifier::external_body]
fn is_alphanumeric(c: char) -> (b: bool)
    ensures
        b == alphanumeric(c),
{
    c.is_alphanumeric()
}

/// `char::is_numeric`: whether Unicode classes the character as a number.
#[verifier::external_body]
fn is_numeric(c: char) -> (b: bool)
    ensures
        b == numeric(c),
{
    c.is_numeric()
}

/// `String::push`: appends one character.
#[verifier::external_body]
pub(crate) fn push_char(s: &mut String, c: char)
    ensures
        final(s)@ == old(s)@.push(c),
{
    s.push(c)
}

/// How a character counts towards the name of a captured value.
#[derive(Debug, PartialEq, Eq, Clone, Copy, Structural)]
pub struct Class {
    /// It may stand in a name.
    pub alphanumeric: bool,
    /// It is a number, which may not begin a name.
    pub numeric: bool,
}

/// The class of a character.
pub open spec fn class_of(c: char) -> Class {
    Class { alphanumeric: alphanumeric(c), numeric: numeric(c) }
}

/// The classes of the characters of a text.
pub open spec fn classes_of(s: Seq<char>) -> Seq<Class> {
    Seq::new(s.len(), |i: int| class_of(s[i]))
}

/// Classes one character.
pub fn classify(c: char) -> (k: Class)
    ensures
        k == class_of(c),
{
    Class { alphanumeric: is_alphanumeric(c), numeric: is_numeric(c) }
}

/// The characters of `s`, one by one.
pub fn chars_of(s: &str) -> (v: Vec<char>)
    ensures
        v@ == s@,
{
    let mut v: Vec<char> = Vec::new();
    for c in it: s.chars()
        invariant
            v@ == it.seq().take(it.index() as int),
            it.seq() == s@,
    {
        v.push(c);
    }
    v
}

/// The index of the first `c` in `s` at or after `from`, or the length of `s`
/// if there is none.
pub open spec fn find(s: Seq<char>, c: char, from: int) -> int
    decreases s.len() - from,
{
    if from >= s.len() {
        s.len() as int
    } else if s[from] == c {
        from
    } else {
        find(s, c, from + 1)
    }
}

/// `find` answers with an index from `from` on, and no `c` stands before it.
pub proof fn lemma_find(s: Seq<char>, c: char, from: int)
    requires
        0 <= from <= s.len(),
    ensures
        from <= find(s, c, from) <= s.len(),
        find(s, c, from) < s.len() ==> s[find(s, c, from)] == c,
        forall|i: int| from <= i < find(s, c, from) ==> s[i] != c,
    decreases s.len() - from,
{
    if from < s.len() && s[from] != c {
        lemma_find(s, c, from + 1);
    }
}

/// The index of the first `c` in `chars` at or after `from`, or the length of
/// `chars` if there is none.
pub fn find_char(chars: &[char], c: char, from: usize) -> (at: usize)
    requires
        from <= chars@.len(),
    ensures
        at == find(chars@, c, from as int),
{
    let mut at = from;
    while at < chars.len() && chars[at] != c
        invariant
            from <= at <= chars@.len(),
            find(chars@, c, from as int) == find(chars@, c, at as int),
        decreases chars@.len() - at,
    {
        at = at + 1;
    }
    at
}

/// The text between `lo` and `hi` with each doubled `}` made single, or
/// nothing if a `}` in it stands alone.
pub open spec fn unescape_range(s: Seq<char>, lo: int, hi: int) -> Option<Seq<char>>
    decreases hi - lo,
{
    if lo >= hi {
        Some(Seq::empty())
    } else if s[lo] != '}' {
        match unescape_range(s, lo + 1, hi) {
            Some(rest) => Some(seq![s[lo]] + rest),
            None => None,
        }
    } else if lo + 1 < hi && s[lo + 1] == '}' {
        match unescape_range(s, lo + 2, hi) {
            Some(rest) => Some(seq!['}'] + rest),
            None => None,
        }
    } else {
        None
    }
}

/// A literal with each doubled `}` made single, or nothing if a `}` in it
/// stands alone.
pub open spec fn unescaped(s: Seq<char>) -> Option<Seq<char>> {
    unescape_range(s, 0, s.len() as int)
}

/// `text` put before what an unescaping gives.
pub open spec fn after(text: Seq<char>, rest: Option<Seq<char>>) -> Option<Seq<char>> {
    match rest {
        Some(rest) => Some(text + rest),
        None => None,
    }
}

/// Appends to `buf` the text between `lo` and `hi`, with each doubled `}`
/// made single. Answers `false` if a `}` stands alone; `buf` then holds a
/// part of the text.
pub fn unescape_into(chars: &[char], lo: usize, hi: usize, buf: &mut String) -> (ok: bool)
    requires
        lo <= hi <= chars@.len(),
    ensures
        match unescape_range(chars@, lo as int, hi as int) {
            Some(text) => ok && final(buf)@ == old(buf)@ + text,
            None => !ok,
        },
{
    let ghost whole = unescape_range(chars@, lo as int, hi as int);
    let ghost start = buf@;
    let mut i = lo;
    proof {
        if whole is Some {
            assert(Seq::<char>::empty() + whole.unwrap() =~= whole.unwrap());
        }
        assert(start + Seq::<char>::empty() =~= start);
    }
    let ghost mut done: Seq<char> = Seq::empty();
    while i < hi
        invariant
            lo <= i <= hi <= chars@.len(),
            whole == unescape_range(chars@, lo as int, hi as int),
            whole == after(done, unescape_range(chars@, i as int, hi as int)),
            start == old(buf)@,
            buf@ == start + done,
        decreases hi - i,
    {
        let ghost rest = unescape_range(chars@, i as int, hi as int);
        let c = chars[i];
        if c != '}' {
            push_char(buf, c);
            proof {
                let next = unescape_range(chars@, i + 1, hi as int);
                if next is Some {
                    assert(done.push(c) + next.unwrap() =~= done + (seq![c] + next.unwrap()));
                }
                assert(start + done.push(c) =~= (start + done).push(c));
                done = done.push(c);
            }
            i = i + 1;
        } else if i + 1 < hi && chars[i + 1] == '}' {
            push_char(buf, '}');
            proof {
                let next = unescape_range(chars@, i + 2, hi as int);
                if next is Some {
                    assert(done.push('}') + next.unwrap() =~= done + (seq!['}'] + next.unwrap()));
                }
                assert(start + done.push('}') =~= (start + done).push('}'));
                done = done.push('}');
            }
            i = i + 2;
        } else {
            proof {
                assert(rest is None);
            }
            return false;
        }
    }
    proof {
        assert(done + Seq::<char>::empty() =~= done);
    }
    true
}

/// Undoes the doubling of `}` in a literal. A `}` that stands alone is an
/// error.
pub fn unescape(literal: &str) -> (r: Result<String, TemplateError>)
    ensures
        match r {
            Ok(text) => unescaped(literal@) == Some(text@),
            Err(e) => unescaped(literal@) is None && e == TemplateError::UnmatchedRightBrace,
        },
{
    let chars = chars_of(literal);
    let mut buf = String::new();
    if unescape_into(chars.as_slice(), 0, chars.len(), &mut buf) {
        proof {
            assert(Seq::<char>::empty() + buf@ =~= buf@);
        }
        Ok(buf)
    } else {
        Err(TemplateError::UnmatchedRightBrace)
    }
}

/// The end of the longest run of alphanumeric characters that starts at `p`.
pub open spec fn name_end(k: Seq<Class>, p: int) -> int
    decreases k.len() - p,
{
    if 0 <= p < k.len() && k[p].alphanumeric {
        name_end(k, p + 1)
    } else {
        p
    }
}

/// Whether `pattern` stands in `s` at `at`.
pub open spec fn has(s: Seq<char>, at: int, pattern: Seq<char>) -> bool {
    0 <= at && at + pattern.len() <= s.len() && s.subrange(at, at + pattern.len()) == pattern
}

/// What follows a `{`: a placeholder, which stands for an argument, or a
/// second `{`, which stands for itself; and the index at which the text goes
/// on.
pub struct Placeholder {
    pub arg: Option<PieceView>,
    pub next: int,
}

/// Reads what follows a `{`, from `p` on. A name is a run of alphanumeric
/// characters that does not begin with a number and after which the text goes
/// on. After the name, if there is one, must stand `:?}`, `:#?}` or `}`;
/// where there is no name, a second `{` is accepted too.
pub open spec fn placeholder_at(s: Seq<char>, k: Seq<Class>, p: int) -> Option<Placeholder> {
    let end = name_end(k, p);
    let named = p < end < s.len() && !k[p].numeric;
    let q = if named {
        end
    } else {
        p
    };
    let implicit_capture = if named {
        Some(s.subrange(p, end))
    } else {
        None
    };
    if has(s, q, seq![':', '?', '}']) {
        Some(
            Placeholder {
                arg: Some(
                    PieceView::Arg {
                        arg_type: FormatArgType::Debug { pretty: false },
                        implicit_capture,
                    },
                ),
                next: q + 3,
            },
        )
    } else if has(s, q, seq![':', '#', '?', '}']) {
        Some(
            Placeholder {
                arg: Some(
                    PieceView::Arg {
                        arg_type: FormatArgType::Debug { pretty: true },
                        implicit_capture,
                    },
                ),
                next: q + 4,
            },
        )
    } else if has(s, q, seq!['}']) {
        Some(
            Placeholder {
                arg: Some(PieceView::Arg { arg_type: FormatArgType::Display, implicit_capture }),
                next: q + 1,
            },
        )
    } else if !named && has(s, q, seq!['{']) {
        Some(Placeholder { arg: None, next: q + 1 })
    } else {
        None
    }
}

/// The text of `chars` between `lo` and `hi`.
pub fn string_of(chars: &[char], lo: usize, hi: usize) -> (text: String)
    requires
        lo <= hi <= chars@.len(),
    ensures
        text@ == chars@.subrange(lo as int, hi as int),
{
    let mut text = String::new();
    let mut i = lo;
    while i < hi
        invariant
            lo <= i <= hi <= chars@.len(),
            text@ == chars@.subrange(lo as int, i as int),
        decreases hi - i,
    {
        push_char(&mut text, chars[i]);
        proof {
            assert(chars@.subrange(lo as int, i as int).push(chars@[i as int]) =~= chars@.subrange(
                lo as int,
                i + 1,
            ));
        }
        i = i + 1;
    }
    text
}

/// The end of the longest run of alphanumeric characters that starts at `p`.
pub fn scan_name(classes: &[Class], p: usize) -> (end: usize)
    requires
        p <= classes@.len(),
    ensures
        end == name_end(classes@, p as int),
        p <= end <= classes@.len(),
{
    let mut end = p;
    while end < classes.len() && classes[end].alphanumeric
        invariant
            p <= end <= classes@.len(),
            name_end(classes@, p as int) == name_end(classes@, end as int),
        decreases classes@.len() - end,
    {
        end = end + 1;
    }
    end
}

/// The view of what a placeholder stands for.
pub open spec fn arg_view(arg: Option<Piece>) -> Option<PieceView> {
    match arg {
        Some(piece) => Some(piece@),
        None => None,
    }
}

/// Reads what follows a `{`, from `p` on: the piece of a placeholder, or
/// nothing for a second `{`, and the index at which the text goes on. Answers
/// `None` where neither stands.
pub fn placeholder(chars: &[char], classes: &[Class], p: usize) -> (r: Option<
    (Option<Piece>, usize),
>)
    requires
        p <= chars@.len(),
        classes@.len() == chars@.len(),
    ensures
        match r {
            Some((arg, next)) => placeholder_at(chars@, classes@, p as int) == Some(
                Placeholder { arg: arg_view(arg), next: next as int },
            ),
            None => placeholder_at(chars@, classes@, p as int) is None,
        },
{
    let n = chars.len();
    let end = scan_name(classes, p);
    let named = p < end && end < n && !classes[p].numeric;
    let q = if named {
        end
    } else {
        p
    };
    let ghost s = chars@;
    if n - q >= 3 && chars[q] == ':' && chars[q + 1] == '?' && chars[q + 2] == '}' {
        proof {
            assert(s.subrange(q as int, q + 3) =~= seq![':', '?', '}']);
        }
        let implicit_capture = if named {
            Some(string_of(chars, p, end))
        } else {
            None
        };
        Some(
            (
                Some(
                    Piece::Arg {
                        arg_type: FormatArgType::Debug { pretty: false },
                        implicit_capture,
                    },
                ),
                q + 3,
            ),
        )
    } else if n - q >= 4 && chars[q] == ':' && chars[q + 1] == '#' && chars[q + 2] == '?'
        && chars[q + 3] == '}' {
        proof {
            assert(s.subrange(q as int, q + 4) =~= seq![':', '#', '?', '}']);
            if has(s, q as int, seq![':', '?', '}']) {
                assert(s.subrange(q as int, q + 3)[1] == '?');
            }
        }
        let implicit_capture = if named {
            Some(string_of(chars, p, end))
        } else {
            None
        };
        Some(
            (
                Some(
                    Piece::Arg {
                        arg_type: FormatArgType::Debug { pretty: true },
                        implicit_capture,
                    },
                ),
                q + 4,
            ),
        )
    } else if q < n && chars[q] == '}' {
        proof {
            assert(s.subrange(q as int, q + 1) =~= seq!['}']);
            if has(s, q as int, seq![':', '?', '}']) {
                assert(s.subrange(q as int, q + 3)[0] == ':');
            }
            if has(s, q as int, seq![':', '#', '?', '}']) {
                assert(s.subrange(q as int, q + 4)[0] == ':');
            }
        }
        let implicit_capture = if named {
            Some(string_of(chars, p, end))
        } else {
            None
        };
        Some((Some(Piece::Arg { arg_type: FormatArgType::Display, implicit_capture }), q + 1))
    } else {
        proof {
            if has(s, q as int, seq![':', '?', '}']) {
                let t = s.subrange(q as int, q + 3);
                assert(t[0] == ':' && t[1] == '?' && t[2] == '}');
            }
            if has(s, q as int, seq![':', '#', '?', '}']) {
                let t = s.subrange(q as int, q + 4);
                assert(t[0] == ':' && t[1] == '#' && t[2] == '?' && t[3] == '}');
            }
            if has(s, q as int, seq!['}']) {
                assert(s.subrange(q as int, q + 1)[0] == '}');
            }
        }
        if !named && q < n && chars[q] == '{' {
            proof {
                assert(s.subrange(q as int, q + 1) =~= seq!['{']);
            }
            Some((None, q + 1))
        } else {
            proof {
                if has(s, q as int, seq!['{']) {
                    assert(s.subrange(q as int, q + 1)[0] == '{');
                }
            }
            None
        }
    }
}

/// A literal piece for `text`, unless `text` is empty.
pub open spec fn literal_piece(text: Seq<char>) -> Seq<PieceView> {
    if text.len() > 0 {
        seq![PieceView::Literal(text)]
    } else {
        Seq::empty()
    }
}

/// The pieces of the template `s` from `from` on, where `pending` is literal
/// text that was read before and belongs to the next literal piece. The text
/// up to the next `{` is literal; what follows the `{` is a placeholder or a
/// second `{`. A placeholder that is not accepted is reported before a `}`
/// that stands alone in the text before it.
pub open spec fn parse_from(s: Seq<char>, k: Seq<Class>, from: int, pending: Seq<char>) -> Result<
    Seq<PieceView>,
    TemplateError,
>
    decreases s.len() - from,
    when 0 <= from <= s.len()
    via parse_from_decreases
{
    let open = find(s, '{', from);
    if open >= s.len() {
        match unescape_range(s, from, s.len() as int) {
            None => Err(TemplateError::UnmatchedRightBrace),
            Some(text) => Ok(literal_piece(pending + text)),
        }
    } else {
        match placeholder_at(s, k, open + 1) {
            None => Err(TemplateError::InvalidPlaceholder),
            Some(placeholder) => match unescape_range(s, from, open) {
                None => Err(TemplateError::UnmatchedRightBrace),
                Some(text) => match placeholder.arg {
                    None => parse_from(s, k, placeholder.next, pending + text + seq!['{']),
                    Some(arg) => match parse_from(s, k, placeholder.next, Seq::empty()) {
                        Err(e) => Err(e),
                        Ok(rest) => Ok(literal_piece(pending + text) + seq![arg] + rest),
                    },
                },
            },
        }
    }
}

#[via_fn]
proof fn parse_from_decreases(s: Seq<char>, k: Seq<Class>, from: int, pending: Seq<char>) {
    lemma_find(s, '{', from);
}

/// The pieces of the template `s`, whose characters have the classes `k`.
pub open spec fn parse_template(s: Seq<char>, k: Seq<Class>) -> Result<
    Seq<PieceView>,
    TemplateError,
> {
    parse_from(s, k, 0, Seq::empty())
}

/// The pieces `done` put before what the rest of a template gives.
pub open spec fn followed_by(
    done: Seq<PieceView>,
    rest: Result<Seq<PieceView>, TemplateError>,
) -> Result<Seq<PieceView>, TemplateError> {
    match rest {
        Ok(rest) => Ok(done + rest),
        Err(e) => Err(e),
    }
}

/// Whether `r` is the outcome `expected`, taken by the views of its pieces.
pub open spec fn gives(
    r: Result<Vec<Piece>, TemplateError>,
    expected: Result<Seq<PieceView>, TemplateError>,
) -> bool {
    match r {
        Ok(pieces) => expected == Ok::<Seq<PieceView>, TemplateError>(piece_views(pieces@)),
        Err(e) => expected == Err::<Seq<PieceView>, TemplateError>(e),
    }
}

/// Compiles a template, given as its characters and their classes, into its
/// pieces.
pub fn parse_chars(chars: &[char], classes: &[Class]) -> (r: Result<Vec<Piece>, TemplateError>)
    requires
        classes@.len() == chars@.len(),
    ensures
        gives(r, parse_template(chars@, classes@)),
{
    let ghost s = chars@;
    let ghost k = classes@;
    let n = chars.len();
    let mut pieces: Vec<Piece> = Vec::new();
    let mut buf = String::new();
    let mut from: usize = 0;
    proof {
        assert(piece_views(pieces@) =~= Seq::<PieceView>::empty());
        assert(Seq::<PieceView>::empty() + parse_template(s, k).unwrap() =~= parse_template(
            s,
            k,
        ).unwrap());
    }
    loop
        invariant
            s == chars@,
            k == classes@,
            n == s.len(),
            k.len() == s.len(),
            from <= n,
            parse_template(s, k) == followed_by(
                piece_views(pieces@),
                parse_from(s, k, from as int, buf@),
            ),
        decreases n - from,
    {
        let ghost done = piece_views(pieces@);
        let ghost pending = buf@;
        proof {
            lemma_find(s, '{', from as int);
        }
        let open = find_char(chars, '{', from);
        if open >= n {
            if !unescape_into(chars, from, n, &mut buf) {
                return Err(TemplateError::UnmatchedRightBrace);
            }
            if !buf.as_str().is_empty() {
                pieces.push(Piece::Literal(buf));
                proof {
                    assert(piece_views(pieces@) =~= done + literal_piece(buf@));
                }
            } else {
                proof {
                    assert(piece_views(pieces@) =~= done + literal_piece(buf@));
                }
            }
            return Ok(pieces);
        }
        let (arg, next) = match placeholder(chars, classes, open + 1) {
            Some(found) => found,
            None => {
                return Err(TemplateError::InvalidPlaceholder);
            },
        };
        if !unescape_into(chars, from, open, &mut buf) {
            return Err(TemplateError::UnmatchedRightBrace);
        }
        match arg {
            None => {
                push_char(&mut buf, '{');
                proof {
                    let text = unescape_range(s, from as int, open as int).unwrap();
                    assert(buf@ =~= pending + text + seq!['{']);
                }
            },
            Some(piece) => {
                let ghost text = buf@;
                let ghost rest = parse_from(s, k, next as int, Seq::empty());
                if !buf.as_str().is_empty() {
                    pieces.push(Piece::Literal(buf));
                    buf = String::new();
                }
                pieces.push(piece);
                proof {
                    assert(piece_views(pieces@) =~= done + literal_piece(text) + seq![piece@]);
                    if rest is Ok {
                        assert(done + (literal_piece(text) + seq![piece@] + rest.unwrap()) =~= done
                            + literal_piece(text) + seq![piece@] + rest.unwrap());
                    }
                }
            },
        }
        from = next;
    }
}

/// Compiles a template into its pieces. A template that breaks the syntax is
/// refused, whatever it would be used with.
pub fn parse_format_str(literal: &str) -> (r: Result<Vec<Piece>, TemplateError>)
    ensures
        gives(r, parse_template(literal@, classes_of(literal@))),
{
    let chars = chars_of(literal);
    let mut classes: Vec<Class> = Vec::new();
    let mut i: usize = 0;
    while i < chars.len()
        invariant
            i <= chars@.len(),
            classes@ == classes_of(chars@).take(i as int),
        decreases chars@.len() - i,
    {
        classes.push(classify(chars[i]));
        proof {
            assert(classes@ =~= classes_of(chars@).take(i + 1));
        }
        i = i + 1;
    }
    proof {
        assert(classes@ =~= classes_of(chars@));
    }
    parse_chars(chars.as_slice(), classes.as_slice())
}

/// The number of pieces that take a positional argument.
pub open spec fn positional_count(pieces: Seq<PieceView>) -> nat
    decreases pieces.len(),
{
    if pieces.len() == 0 {
        0
    } else {
        positional_count(pieces.drop_last()) + if pieces.last().is_positional_arg() {
            1nat
        } else {
            0nat
        }
    }
}

/// The number of positional arguments that the pieces ask for.
pub fn required_args(pieces: &[Piece]) -> (n: usize)
    ensures
        n == positional_count(piece_views(pieces@)),
{
    let mut n: usize = 0;
    let mut i: usize = 0;
    proof {
        assert(piece_views(pieces@).take(0) =~= Seq::<PieceView>::empty());
    }
    while i < pieces.len()
        invariant
            i <= pieces@.len(),
            n == positional_count(piece_views(pieces@).take(i as int)),
            n <= i,
        decreases pieces@.len() - i,
    {
        proof {
            let next = piece_views(pieces@).take(i + 1);
            assert(next.drop_last() =~= piece_views(pieces@).take(i as int));
            assert(next.last() == pieces@[i as int]@);
        }
        if pieces[i].is_positional_arg() {
            n = n + 1;
        }
        i = i + 1;
    }
    proof {
        assert(piece_views(pieces@).take(i as int) =~= piece_views(pieces@));
    }
    n
}

/// Whether `supplied` positional arguments are what a template asks for that
/// has `required` placeholders without a name: too few are refused with both
/// numbers, too many with the position of the first that nothing uses.
pub open spec fn arity(required: nat, supplied: nat) -> Option<TemplateError> {
    if supplied < required {
        Some(
            TemplateError::MissingArguments {
                required: required as usize,
                supplied: supplied as usize,
            },
        )
    } else if supplied > required {
        Some(TemplateError::UnusedArgument { index: required as usize })
    } else {
        None
    }
}

/// Holds the number of supplied positional arguments against the pieces.
/// Placeholders that capture a value by name take none of them.
pub fn check_arity(pieces: &[Piece], supplied: usize) -> (r: Result<(), TemplateError>)
    ensures
        match r {
            Ok(_) => arity(positional_count(piece_views(pieces@)), supplied as nat) is None,
            Err(e) => arity(positional_count(piece_views(pieces@)), supplied as nat) == Some(e),
        },
{
    let required = required_args(pieces);
    if supplied < required {
        Err(TemplateError::MissingArguments { required, supplied })
    } else if supplied > required {
        Err(TemplateError::UnusedArgument { index: required })
    } else {
        Ok(())
    }
}

/// The template as it is compiled: with a line break at its end where one is
/// asked for.
pub open spec fn with_newline(s: Seq<char>, newline: bool) -> Seq<char> {
    if newline {
        s.push('\n')
    } else {
        s
    }
}

/// The outcome of compiling a template for a number of positional arguments:
/// errors of syntax come before errors of arity.
pub open spec fn compiled(s: Seq<char>, newline: bool, supplied: nat) -> Result<
    Seq<PieceView>,
    TemplateError,
> {
    let text = with_newline(s, newline);
    match parse_template(text, classes_of(text)) {
        Err(e) => Err(e),
        Ok(pieces) => match arity(positional_count(pieces), supplied) {
            Some(e) => Err(e),
            None => Ok(pieces),
        },
    }
}

/// Compiles a template for use with `supplied` positional arguments: the
/// pieces of the template, with a line break added where `newline` is set, or
/// the reason why the template cannot be used.
pub fn compile(template: &str, newline: bool, supplied: usize) -> (r: Result<
    Vec<Piece>,
    TemplateError,
>)
    ensures
        gives(r, compiled(template@, newline, supplied as nat)),
{
    let mut format = String::from_str(template);
    if newline {
        push_char(&mut format, '\n');
    }
    let pieces = match parse_format_str(format.as_str()) {
        Ok(pieces) => pieces,
        Err(e) => {
            return Err(e);
        },
    };
    match check_arity(pieces.as_slice(), supplied) {
        Ok(_) => Ok(pieces),
        Err(e) => Err(e),
    }
}

} // verus!
