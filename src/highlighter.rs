//! Inline highlighting of one line of Markdown source: code spans, bold,
//! italic and strikethrough markers split the line into styled tokens.

use crate::utils::{chars_of, string_of_chars};
use vstd::prelude::*;

verus! {

/// How a token is drawn. Colours are left to the presentation, which gives
/// code its background.
#[derive(Clone, Copy, Debug, PartialEq, Eq, Structural)]
pub struct TokenStyle {
    pub bold: bool,
    pub italic: bool,
    pub underline: bool,
    pub strikethrough: bool,
    pub code: bool,
}

/// A run of text in one style.
#[derive(Debug)]
pub struct Token {
    pub text: String,
    pub style: TokenStyle,
}

/// What a `Token` holds, with its text as characters.
pub struct TokenView {
    pub text: Seq<char>,
    pub style: TokenStyle,
}

impl View for Token {
    type V = TokenView;

    open spec fn view(&self) -> TokenView {
        TokenView { text: self.text@, style: self.style }
    }
}

/// A highlighted line.
#[derive(Debug)]
pub struct Line {
    pub tokens: Vec<Token>,
}

impl View for Line {
    type V = Seq<TokenView>;

    open spec fn view(&self) -> Seq<TokenView> {
        self.tokens@.map_values(|t: Token| t@)
    }
}

/// Progress through a line: the finished tokens, the text of the token
/// being gathered, and which markers are open.
pub struct ScanState {
    pub tokens: Seq<TokenView>,
    pub text: Seq<char>,
    pub code: bool,
    pub bold: bool,
    pub italic: bool,
    pub strikethrough: bool,
}

/// The style that the open markers give.
pub open spec fn style_of(st: ScanState) -> TokenStyle {
    TokenStyle {
        bold: st.bold,
        italic: st.italic,
        underline: false,
        strikethrough: st.strikethrough,
        code: st.code,
    }
}

/// The gathered text, if any, closed as a token.
pub open spec fn close_text(st: ScanState) -> ScanState {
    if st.text.len() > 0 {
        ScanState {
            tokens: st.tokens.push(TokenView { text: st.text, style: style_of(st) }),
            text: Seq::empty(),
            ..st
        }
    } else {
        st
    }
}

/// The state after the characters of `rest`. A backquote toggles code; a
/// doubled `*` or `_` toggles bold and a single one italic, outside code; a
/// doubled `~` toggles strikethrough outside code; every other character,
/// and a marker inside code, is text.
pub open spec fn scan(rest: Seq<char>, st: ScanState) -> ScanState
    decreases rest.len(),
{
    if rest.len() == 0 {
        st
    } else {
        let c = rest[0];
        let doubled = rest.len() > 1 && rest[1] == c;
        if c == '`' {
            scan(rest.skip(1), ScanState { code: !st.code, ..close_text(st) })
        } else if (c == '*' || c == '_') && doubled && !st.code {
            scan(rest.skip(2), ScanState { bold: !st.bold, ..close_text(st) })
        } else if (c == '*' || c == '_') && !st.code {
            scan(rest.skip(1), ScanState { italic: !st.italic, ..close_text(st) })
        } else if c == '~' && doubled && !st.code {
            scan(rest.skip(2), ScanState { strikethrough: !st.strikethrough, ..close_text(st) })
        } else {
            scan(rest.skip(1), ScanState { text: st.text.push(c), ..st })
        }
    }
}

/// The tokens of a line: those the scan closes, then the text left at the
/// end; one empty plain token if there are none.
pub open spec fn highlight_spec(line: Seq<char>) -> Seq<TokenView> {
    let st = close_text(
        scan(
            line,
            ScanState {
                tokens: Seq::empty(),
                text: Seq::empty(),
                code: false,
                bold: false,
                italic: false,
                strikethrough: false,
            },
        ),
    );
    if st.tokens.len() == 0 {
        seq![
            TokenView {
                text: Seq::empty(),
                style: TokenStyle {
                    bold: false,
                    italic: false,
                    underline: false,
                    strikethrough: false,
                    code: false,
                },
            },
        ]
    } else {
        st.tokens
    }
}

/// Splits lines of Markdown source into styled tokens.
pub struct MarkdownHighlighter {}

/// The scan in progress.
struct Scanner {
    tokens: Vec<Token>,
    text: Vec<char>,
    code: bool,
    bold: bool,
    italic: bool,
    strikethrough: bool,
}

impl Scanner {
    spec fn state(&self) -> ScanState {
        ScanState {
            tokens: self.tokens@.map_values(|t: Token| t@),
            text: self.text@,
            code: self.code,
            bold: self.bold,
            italic: self.italic,
            strikethrough: self.strikethrough,
        }
    }

    fn style(&self) -> (r: TokenStyle)
        ensures
            r == style_of(self.state()),
    {
        TokenStyle {
            bold: self.bold,
            italic: self.italic,
            underline: false,
            strikethrough: self.strikethrough,
            code: self.code,
        }
    }

    /// Closes the gathered text, if any, as a token.
    fn close_text(&mut self)
        ensures
            final(self).state() == close_text(old(self).state()),
    {
        if self.text.len() > 0 {
            let ghost tokens0 = self.state().tokens;
            let token = Token { text: string_of_chars(&self.text), style: self.style() };
            self.tokens.push(token);
            self.text = Vec::new();
            assert(self.state().tokens =~= tokens0.push(token@));
            assert(self.state().text =~= Seq::<char>::empty());
        }
    }
}

impl MarkdownHighlighter {
    pub fn new() -> (r: Self) {
        MarkdownHighlighter {  }
    }

    /// Splits `line` into tokens by its inline markers.
    pub fn highlight_line(&self, line: &str) -> (r: Line)
        ensures
            r@ == highlight_spec(line@),
    {
        let chars = chars_of(line);
        let mut s = Scanner {
            tokens: Vec::new(),
            text: Vec::new(),
            code: false,
            bold: false,
            italic: false,
            strikethrough: false,
        };
        let ghost init = s.state();
        assert(init.tokens =~= Seq::<TokenView>::empty());
        assert(init.text =~= Seq::<char>::empty());
        assert(chars@.skip(0) =~= chars@);
        let mut i: usize = 0;
        while i < chars.len()
            invariant
                i <= chars@.len(),
                scan(chars@.skip(i as int), s.state()) == scan(chars@, init),
            decreases chars@.len() - i,
        {
            let ghost rest = chars@.skip(i as int);
            let c = chars[i];
            let doubled = i + 1 < chars.len() && chars[i + 1] == c;
            if c == '`' {
                s.close_text();
                s.code = !s.code;
                assert(rest.skip(1) =~= chars@.skip(i + 1));
                i = i + 1;
            } else if (c == '*' || c == '_') && doubled && !s.code {
                s.close_text();
                s.bold = !s.bold;
                assert(rest.skip(2) =~= chars@.skip(i + 2));
                i = i + 2;
            } else if (c == '*' || c == '_') && !s.code {
                s.close_text();
                s.italic = !s.italic;
                assert(rest.skip(1) =~= chars@.skip(i + 1));
                i = i + 1;
            } else if c == '~' && doubled && !s.code {
                s.close_text();
                s.strikethrough = !s.strikethrough;
                assert(rest.skip(2) =~= chars@.skip(i + 2));
                i = i + 2;
            } else {
                s.text.push(c);
                assert(rest.skip(1) =~= chars@.skip(i + 1));
                i = i + 1;
            }
        }
        assert(chars@.skip(i as int) =~= Seq::<char>::empty());
        s.close_text();
        let mut tokens = s.tokens;
        if tokens.len() == 0 {
            let empty = Token {
                text: String::new(),
                style: TokenStyle {
                    bold: false,
                    italic: false,
                    underline: false,
                    strikethrough: false,
                    code: false,
                },
            };
            tokens.push(empty);
            assert(tokens@.map_values(|t: Token| t@) =~= highlight_spec(line@));
        }
        Line { tokens }
    }
}

impl Default for MarkdownHighlighter {
    fn default() -> (r: Self) {
        MarkdownHighlighter::new()
    }
}

} // verus!
