//! Token tags for the three passes of the scanner, the spans that carry them,
//! and their spec-level views.

use vstd::prelude::*;
use vstd::string::StringExecFns;

verus! {

/// Pass-1 tag: a coarse character class.
#[derive(Copy, Clone, PartialEq, Eq, Structural, Debug)]
pub enum LevelOneToken {
    Asterisk,
    BackSlash,
    CharDelimiter,
    Digit,
    ForwardSlash,
    Hash,
    LowerCaseB,
    LowerCaseR,
    NewLine,
    Other,
    StrDelimiter,
    UnderscoreLetter,
}

/// The character class of a single character. `b` and `r` get classes of
/// their own (they may prefix a raw or byte string literal); every other
/// letter, digit or underscore is an identifier character.
pub open spec fn classify(c: char) -> LevelOneToken {
    if c == '*' {
        LevelOneToken::Asterisk
    } else if c == '\\' {
        LevelOneToken::BackSlash
    } else if c == '\'' {
        LevelOneToken::CharDelimiter
    } else if c == '/' {
        LevelOneToken::ForwardSlash
    } else if c == '#' {
        LevelOneToken::Hash
    } else if c == 'b' {
        LevelOneToken::LowerCaseB
    } else if c == 'r' {
        LevelOneToken::LowerCaseR
    } else if c == '"' {
        LevelOneToken::StrDelimiter
    } else if '0' <= c && c <= '9' {
        LevelOneToken::Digit
    } else if c == '\r' || c == '\n' {
        LevelOneToken::NewLine
    } else if c == '_' || ('a' <= c && c <= 'z') || ('A' <= c && c <= 'Z') {
        LevelOneToken::UnderscoreLetter
    } else {
        LevelOneToken::Other
    }
}

/// A greedy class absorbs immediately following characters of the same class
/// into one span; every other class always forms a single-character span, so
/// that two-character lookahead patterns stay visible to later passes.
pub open spec fn is_greedy_class(t: LevelOneToken) -> bool {
    t is Digit || t is Hash || t is NewLine || t is Other || t is UnderscoreLetter
}

impl From<char> for LevelOneToken {
    fn from(value: char) -> (t: LevelOneToken) {
        if value == '*' {
            LevelOneToken::Asterisk
        } else if value == '\\' {
            LevelOneToken::BackSlash
        } else if value == '\'' {
            LevelOneToken::CharDelimiter
        } else if value == '/' {
            LevelOneToken::ForwardSlash
        } else if value == '#' {
            LevelOneToken::Hash
        } else if value == 'b' {
            LevelOneToken::LowerCaseB
        } else if value == 'r' {
            LevelOneToken::LowerCaseR
        } else if value == '"' {
            LevelOneToken::StrDelimiter
        } else if '0' <= value && value <= '9' {
            LevelOneToken::Digit
        } else if value == '\r' || value == '\n' {
            LevelOneToken::NewLine
        } else if value == '_' || ('a' <= value && value <= 'z') || ('A' <= value && value <= 'Z') {
            LevelOneToken::UnderscoreLetter
        } else {
            LevelOneToken::Other
        }
    }
}

impl vstd::std_specs::convert::FromSpecImpl<char> for LevelOneToken {
    open spec fn obeys_from_spec() -> bool {
        true
    }

    open spec fn from_spec(v: char) -> LevelOneToken {
        classify(v)
    }
}

impl LevelOneToken {
    pub fn is_greedy(&self) -> (r: bool)
        ensures
            r == is_greedy_class(*self),
    {
        matches!(
            self,
            Self::Digit | Self::Hash | Self::NewLine | Self::Other | Self::UnderscoreLetter
        )
    }
}

/// Pass-2 tag: a structural marker. `NewLine` carries the 1-based line number
/// reached once the newline span has been consumed.
#[derive(Copy, Clone, PartialEq, Eq, Structural, Debug)]
pub enum LevelTwoToken {
    BackSlash,
    BeginMultiLineComment,
    BeginSingleLineComment,
    CharDelimiter,
    EndMultiLineComment,
    Hash,
    NewLine(usize),
    Other,
    StrDelimiter,
    StrPrefix,
    Word,
}

/// The spec-level image of a pass-2 tag; line numbers widen to `nat`.
pub enum LevelTwoTokenView {
    BackSlash,
    BeginMultiLineComment,
    BeginSingleLineComment,
    CharDelimiter,
    EndMultiLineComment,
    Hash,
    NewLine(nat),
    Other,
    StrDelimiter,
    StrPrefix,
    Word,
}

/// The pass-2 tag a pass-1 tag maps to when no lookahead rule applies.
pub open spec fn fallback_level_two(t: LevelOneToken) -> LevelTwoTokenView {
    match t {
        LevelOneToken::BackSlash => LevelTwoTokenView::BackSlash,
        LevelOneToken::CharDelimiter => LevelTwoTokenView::CharDelimiter,
        LevelOneToken::Hash => LevelTwoTokenView::Hash,
        LevelOneToken::StrDelimiter => LevelTwoTokenView::StrDelimiter,
        _ => LevelTwoTokenView::Other,
    }
}

impl From<LevelOneToken> for LevelTwoToken {
    fn from(value: LevelOneToken) -> (t: LevelTwoToken) {
        match value {
            LevelOneToken::BackSlash => Self::BackSlash,
            LevelOneToken::CharDelimiter => Self::CharDelimiter,
            LevelOneToken::Hash => Self::Hash,
            LevelOneToken::StrDelimiter => Self::StrDelimiter,
            _ => Self::Other,
        }
    }
}

impl vstd::std_specs::convert::FromSpecImpl<LevelOneToken> for LevelTwoToken {
    open spec fn obeys_from_spec() -> bool {
        true
    }

    open spec fn from_spec(v: LevelOneToken) -> LevelTwoToken {
        match v {
            LevelOneToken::BackSlash => LevelTwoToken::BackSlash,
            LevelOneToken::CharDelimiter => LevelTwoToken::CharDelimiter,
            LevelOneToken::Hash => LevelTwoToken::Hash,
            LevelOneToken::StrDelimiter => LevelTwoToken::StrDelimiter,
            _ => LevelTwoToken::Other,
        }
    }
}

/// Final token. `Invalid` carries a human-readable reason; the scan never
/// aborts on a malformed construct.
#[derive(PartialEq, Debug)]
pub enum Token {
    CharLiteral,
    Invalid(String),
    LifetimeElision,
    MultiLineComment,
    NewLine(usize),
    Other,
    SingleLineComment,
    StrLiteral,
}

/// The spec-level image of a final token.
#[verifier::ext_equal]
pub enum TokenView {
    CharLiteral,
    Invalid(Seq<char>),
    LifetimeElision,
    MultiLineComment,
    NewLine(nat),
    Other,
    SingleLineComment,
    StrLiteral,
}

/// The final token a pass-2 tag maps to when no disambiguation rule applies.
pub open spec fn fallback_token(t: LevelTwoTokenView) -> TokenView {
    match t {
        LevelTwoTokenView::NewLine(line_number) => TokenView::NewLine(line_number),
        _ => TokenView::Other,
    }
}

impl From<LevelTwoToken> for Token {
    fn from(token: LevelTwoToken) -> (t: Token) {
        match token {
            LevelTwoToken::NewLine(line_number) => Self::NewLine(line_number),
            _ => Self::Other,
        }
    }
}

impl vstd::std_specs::convert::FromSpecImpl<LevelTwoToken> for Token {
    open spec fn obeys_from_spec() -> bool {
        true
    }

    open spec fn from_spec(v: LevelTwoToken) -> Token {
        match v {
            LevelTwoToken::NewLine(line_number) => Token::NewLine(line_number),
            _ => Token::Other,
        }
    }
}

/// A tagged span: some pass's tag together with the slice of text it covers.
pub struct Sequence<T> {
    pub token: T,
    pub text: String,
}

/// The spec-level image of a span: a tag and the characters it covers.
#[verifier::ext_equal]
pub struct SpanView<T> {
    pub token: T,
    pub text: Seq<char>,
}

impl DeepView for LevelOneToken {
    type V = LevelOneToken;

    open spec fn deep_view(&self) -> LevelOneToken {
        *self
    }
}

impl DeepView for LevelTwoToken {
    type V = LevelTwoTokenView;

    open spec fn deep_view(&self) -> LevelTwoTokenView {
        match self {
            LevelTwoToken::BackSlash => LevelTwoTokenView::BackSlash,
            LevelTwoToken::BeginMultiLineComment => LevelTwoTokenView::BeginMultiLineComment,
            LevelTwoToken::BeginSingleLineComment => LevelTwoTokenView::BeginSingleLineComment,
            LevelTwoToken::CharDelimiter => LevelTwoTokenView::CharDelimiter,
            LevelTwoToken::EndMultiLineComment => LevelTwoTokenView::EndMultiLineComment,
            LevelTwoToken::Hash => LevelTwoTokenView::Hash,
            LevelTwoToken::NewLine(line_number) => LevelTwoTokenView::NewLine(*line_number as nat),
            LevelTwoToken::Other => LevelTwoTokenView::Other,
            LevelTwoToken::StrDelimiter => LevelTwoTokenView::StrDelimiter,
            LevelTwoToken::StrPrefix => LevelTwoTokenView::StrPrefix,
            LevelTwoToken::Word => LevelTwoTokenView::Word,
        }
    }
}

impl DeepView for Token {
    type V = TokenView;

    open spec fn deep_view(&self) -> TokenView {
        match self {
            Token::CharLiteral => TokenView::CharLiteral,
            Token::Invalid(reason) => TokenView::Invalid(reason@),
            Token::LifetimeElision => TokenView::LifetimeElision,
            Token::MultiLineComment => TokenView::MultiLineComment,
            Token::NewLine(line_number) => TokenView::NewLine(*line_number as nat),
            Token::Other => TokenView::Other,
            Token::SingleLineComment => TokenView::SingleLineComment,
            Token::StrLiteral => TokenView::StrLiteral,
        }
    }
}

impl<T: DeepView> DeepView for Sequence<T> {
    type V = SpanView<T::V>;

    open spec fn deep_view(&self) -> SpanView<T::V> {
        SpanView { token: self.token.deep_view(), text: self.text@ }
    }
}

/// The line number carried by a final `NewLine` token (zero elsewhere).
pub open spec fn line_of(t: TokenView) -> nat {
    match t {
        TokenView::NewLine(line_number) => line_number,
        _ => 0,
    }
}

/// The line number carried by a pass-2 `NewLine` tag (zero elsewhere).
pub open spec fn level_two_line_of(t: LevelTwoTokenView) -> nat {
    match t {
        LevelTwoTokenView::NewLine(line_number) => line_number,
        _ => 0,
    }
}

// ---------------------------------------------------------------------------
// Diagnostic messages
// ---------------------------------------------------------------------------
pub open spec fn invalid_char_literal_msg() -> Seq<char> {
    "Invalid char literal"@
}

pub open spec fn invalid_raw_string_literal_msg() -> Seq<char> {
    "Invalid raw string literal"@
}

pub open spec fn multi_line_comment_without_beggining_msg() -> Seq<char> {
    "Multiline end comment detected without a beginning."@
}

pub open spec fn unclosed_char_literal_msg() -> Seq<char> {
    "Unclosed char or lifetime elision"@
}

pub open spec fn unclosed_string_literal_msg() -> Seq<char> {
    "Unclosed string literal"@
}

pub open spec fn unclosed_multi_line_comment_msg(unclosed_levels: nat) -> Seq<char> {
    "Multiline comment not closed ("@ + decimal_digits(unclosed_levels)
        + " level(s) unclosed)."@
}

/// The character for a single decimal digit.
pub open spec fn digit_char(d: nat) -> char {
    if d == 0 {
        '0'
    } else if d == 1 {
        '1'
    } else if d == 2 {
        '2'
    } else if d == 3 {
        '3'
    } else if d == 4 {
        '4'
    } else if d == 5 {
        '5'
    } else if d == 6 {
        '6'
    } else if d == 7 {
        '7'
    } else if d == 8 {
        '8'
    } else {
        '9'
    }
}

/// The decimal digits of `n`, most significant first, with no leading zero
/// except for `n == 0` itself.
pub open spec fn decimal_digits(n: nat) -> Seq<char>
    decreases n,
{
    if n < 10 {
        seq![digit_char(n)]
    } else {
        decimal_digits(n / 10) + seq![digit_char(n % 10)]
    }
}

fn digit_str(d: usize) -> (s: &'static str)
    requires
        d < 10,
    ensures
        s@ == seq![digit_char(d as nat)],
{
    if d == 0 {
        proof {
            reveal_strlit("0");
        }
        assert("0"@ =~= seq![digit_char(d as nat)]);
        "0"
    } else if d == 1 {
        proof {
            reveal_strlit("1");
        }
        assert("1"@ =~= seq![digit_char(d as nat)]);
        "1"
    } else if d == 2 {
        proof {
            reveal_strlit("2");
        }
        assert("2"@ =~= seq![digit_char(d as nat)]);
        "2"
    } else if d == 3 {
        proof {
            reveal_strlit("3");
        }
        assert("3"@ =~= seq![digit_char(d as nat)]);
        "3"
    } else if d == 4 {
        proof {
            reveal_strlit("4");
        }
        assert("4"@ =~= seq![digit_char(d as nat)]);
        "4"
    } else if d == 5 {
        proof {
            reveal_strlit("5");
        }
        assert("5"@ =~= seq![digit_char(d as nat)]);
        "5"
    } else if d == 6 {
        proof {
            reveal_strlit("6");
        }
        assert("6"@ =~= seq![digit_char(d as nat)]);
        "6"
    } else if d == 7 {
        proof {
            reveal_strlit("7");
        }
        assert("7"@ =~= seq![digit_char(d as nat)]);
        "7"
    } else if d == 8 {
        proof {
            reveal_strlit("8");
        }
        assert("8"@ =~= seq![digit_char(d as nat)]);
        "8"
    } else {
        proof {
            reveal_strlit("9");
        }
        assert("9"@ =~= seq![digit_char(d as nat)]);
        "9"
    }
}

/// Appends the decimal digits of `n` to `out`.
fn push_decimal(n: usize, out: &mut String)
    ensures
        final(out)@ == old(out)@ + decimal_digits(n as nat),
    decreases n,
{
    if n < 10 {
        out.append(digit_str(n));
    } else {
        push_decimal(n / 10, out);
        out.append(digit_str(n % 10));
    }
}

impl Token {
    pub fn invalid_char_literal() -> (t: Token)
        ensures
            t.deep_view() == TokenView::Invalid(invalid_char_literal_msg()),
    {
        Self::Invalid("Invalid char literal".to_owned())
    }

    pub fn invalid_raw_string_literal() -> (t: Token)
        ensures
            t.deep_view() == TokenView::Invalid(invalid_raw_string_literal_msg()),
    {
        Self::Invalid("Invalid raw string literal".to_owned())
    }

    pub fn multi_line_comment_without_beggining() -> (t: Token)
        ensures
            t.deep_view() == TokenView::Invalid(multi_line_comment_without_beggining_msg()),
    {
        Self::Invalid("Multiline end comment detected without a beginning.".to_owned())
    }

    pub fn unclosed_char_literal() -> (t: Token)
        ensures
            t.deep_view() == TokenView::Invalid(unclosed_char_literal_msg()),
    {
        Self::Invalid("Unclosed char or lifetime elision".to_owned())
    }

    pub fn unclosed_multi_line_comment(unclosed_levels: usize) -> (t: Token)
        ensures
            t.deep_view() == TokenView::Invalid(
                unclosed_multi_line_comment_msg(unclosed_levels as nat),
            ),
    {
        let mut reason = "Multiline comment not closed (".to_owned();
        push_decimal(unclosed_levels, &mut reason);
        reason.append(" level(s) unclosed).");
        Self::Invalid(reason)
    }

    pub fn unclosed_string_literal() -> (t: Token)
        ensures
            t.deep_view() == TokenView::Invalid(unclosed_string_literal_msg()),
    {
        Self::Invalid("Unclosed string literal".to_owned())
    }
}

} // verus!
