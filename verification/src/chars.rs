//! Character classes, runs of characters, and the text of the tokens.

use crate::error::Token;
use vstd::prelude::*;
use vstd::utf8::{
    char_u32_cast, encode_scalar, encode_utf8, has_width_1_encoding, is_ascii_chars,
    is_ascii_chars_encode_utf8,
};

verus! {

/// A set of characters that the grammar takes in runs.
#[derive(Debug, Clone, Copy, PartialEq, Eq, Structural)]
pub enum CharClass {
    /// `0` to `9`.
    Digit,
    /// `a` to `z`, `A` to `Z`, `0` to `9`.
    Alphanumeric,
    /// The space and the tab.
    Blank,
    /// The space alone.
    Space,
    /// What a string literal may hold: alphanumerics and blanks.
    Text,
    /// Blanks, the line feed and the carriage return.
    Whitespace,
}

impl CharClass {
    /// Whether `c` belongs to the class.
    pub open spec fn admits(self, c: char) -> bool {
        match self {
            CharClass::Digit => '0' <= c <= '9',
            CharClass::Alphanumeric => 'a' <= c <= 'z' || 'A' <= c <= 'Z' || '0' <= c <= '9',
            CharClass::Blank => c == ' ' || c == '\t',
            CharClass::Space => c == ' ',
            CharClass::Text => 'a' <= c <= 'z' || 'A' <= c <= 'Z' || '0' <= c <= '9' || c == ' '
                || c == '\t',
            CharClass::Whitespace => c == ' ' || c == '\t' || c == '\n' || c == '\r',
        }
    }
}

/// The length of the longest prefix of `s` whose characters all belong to
/// `class`.
pub open spec fn run_len(s: Seq<char>, class: CharClass) -> nat
    decreases s.len(),
{
    if s.len() > 0 && class.admits(s[0]) {
        1 + run_len(s.drop_first(), class)
    } else {
        0
    }
}

/// What is left of `s` after its first `n` characters; nothing where `s` has
/// fewer.
pub open spec fn after(s: Seq<char>, n: nat) -> Seq<char> {
    if n <= s.len() {
        s.skip(n as int)
    } else {
        Seq::empty()
    }
}

/// Whether `s` begins with `text`.
pub open spec fn starts_with(s: Seq<char>, text: Seq<char>) -> bool {
    text.len() <= s.len() && s.take(text.len() as int) == text
}

/// The value of a run of decimal digits, read in base ten.
pub open spec fn decimal_value(digits: Seq<char>) -> nat
    decreases digits.len(),
{
    if digits.len() == 0 {
        0
    } else {
        10 * decimal_value(digits.drop_last()) + (digits.last() as nat - '0' as nat) as nat
    }
}

impl Token {
    /// The characters that make up the token.
    pub open spec fn text(self) -> Seq<char> {
        match self {
            Token::Let => seq!['l', 'e', 't', ' '],
            Token::Return => seq!['r', 'e', 't', 'u', 'r', 'n'],
            Token::Fn => seq!['f', 'n'],
            Token::Assign => seq!['='],
            Token::Semicolon => seq![';'],
            Token::Comma => seq![','],
            Token::OpenParen => seq!['('],
            Token::CloseParen => seq![')'],
            Token::OpenBrace => seq!['{'],
            Token::CloseBrace => seq!['}'],
            Token::Quote => seq!['"'],
            Token::True => seq!['t', 'r', 'u', 'e'],
            Token::False => seq!['f', 'a', 'l', 's', 'e'],
            Token::Plus => seq!['+'],
            Token::Minus => seq!['-'],
            Token::Star => seq!['*'],
            Token::Slash => seq!['/'],
            Token::Caret => seq!['^'],
            Token::Space => seq![' '],
            Token::LineFeed => seq!['\n'],
            Token::CarriageReturn => seq!['\r'],
        }
    }

    /// The token as it is written.
    pub fn as_str(self) -> (text: &'static str)
        ensures
            text@ == self.text(),
    {
        match self {
            Token::Let => {
                proof {
                    reveal_strlit("let ");
                }
                assert("let "@ =~= self.text());
                "let "
            },
            Token::Return => {
                proof {
                    reveal_strlit("return");
                }
                assert("return"@ =~= self.text());
                "return"
            },
            Token::Fn => {
                proof {
                    reveal_strlit("fn");
                }
                assert("fn"@ =~= self.text());
                "fn"
            },
            Token::Assign => {
                proof {
                    reveal_strlit("=");
                }
                assert("="@ =~= self.text());
                "="
            },
            Token::Semicolon => {
                proof {
                    reveal_strlit(";");
                }
                assert(";"@ =~= self.text());
                ";"
            },
            Token::Comma => {
                proof {
                    reveal_strlit(",");
                }
                assert(","@ =~= self.text());
                ","
            },
            Token::OpenParen => {
                proof {
                    reveal_strlit("(");
                }
                assert("("@ =~= self.text());
                "("
            },
            Token::CloseParen => {
                proof {
                    reveal_strlit(")");
                }
                assert(")"@ =~= self.text());
                ")"
            },
            Token::OpenBrace => {
                proof {
                    reveal_strlit("{");
                }
                assert("{"@ =~= self.text());
                "{"
            },
            Token::CloseBrace => {
                proof {
                    reveal_strlit("}");
                }
                assert("}"@ =~= self.text());
                "}"
            },
            Token::Quote => {
                proof {
                    reveal_strlit("\"");
                }
                assert("\""@ =~= self.text());
                "\""
            },
            Token::True => {
                proof {
                    reveal_strlit("true");
                }
                assert("true"@ =~= self.text());
                "true"
            },
            Token::False => {
                proof {
                    reveal_strlit("false");
                }
                assert("false"@ =~= self.text());
                "false"
            },
            Token::Plus => {
                proof {
                    reveal_strlit("+");
                }
                assert("+"@ =~= self.text());
                "+"
            },
            Token::Minus => {
                proof {
                    reveal_strlit("-");
                }
                assert("-"@ =~= self.text());
                "-"
            },
            Token::Star => {
                proof {
                    reveal_strlit("*");
                }
                assert("*"@ =~= self.text());
                "*"
            },
            Token::Slash => {
                proof {
                    reveal_strlit("/");
                }
                assert("/"@ =~= self.text());
                "/"
            },
            Token::Caret => {
                proof {
                    reveal_strlit("^");
                }
                assert("^"@ =~= self.text());
                "^"
            },
            Token::Space => {
                proof {
                    reveal_strlit(" ");
                }
                assert(" "@ =~= self.text());
                " "
            },
            Token::LineFeed => {
                proof {
                    reveal_strlit("\n");
                }
                assert("\n"@ =~= self.text());
                "\n"
            },
            Token::CarriageReturn => {
                proof {
                    reveal_strlit("\r");
                }
                assert("\r"@ =~= self.text());
                "\r"
            },
        }
    }
}

/// A run is no longer than the text it is taken from.
pub proof fn lemma_run_len_bound(s: Seq<char>, class: CharClass)
    ensures
        run_len(s, class) <= s.len(),
    decreases s.len(),
{
    if s.len() > 0 && class.admits(s[0]) {
        lemma_run_len_bound(s.drop_first(), class);
    }
}

/// Every character of a run belongs to the class, and the character after
/// the run, if there is one, does not.
pub proof fn lemma_run_is_maximal(s: Seq<char>, class: CharClass)
    ensures
        forall|i: int| 0 <= i < run_len(s, class) ==> class.admits(#[trigger] s[i]),
        run_len(s, class) < s.len() ==> !class.admits(s[run_len(s, class) as int]),
    decreases s.len(),
{
    lemma_run_len_bound(s, class);
    if s.len() > 0 && class.admits(s[0]) {
        let t = s.drop_first();
        lemma_run_is_maximal(t, class);
        lemma_run_len_bound(t, class);
        assert forall|i: int| 0 <= i < run_len(s, class) implies class.admits(#[trigger] s[i]) by {
            if i > 0 {
                assert(s[i] == t[i - 1]);
            }
        }
        if run_len(s, class) < s.len() {
            assert(s[run_len(s, class) as int] == t[run_len(t, class) as int]);
        }
    }
}

/// A run that is followed by a run of the same class is one run.
pub proof fn lemma_run_len_split(s: Seq<char>, class: CharClass, n: nat)
    requires
        n <= run_len(s, class),
    ensures
        run_len(s, class) == n + run_len(after(s, n), class),
    decreases n,
{
    lemma_run_len_bound(s, class);
    if n > 0 {
        let t = s.drop_first();
        lemma_run_len_split(t, class, (n - 1) as nat);
        lemma_run_len_bound(t, class);
        assert(after(t, (n - 1) as nat) =~= after(s, n));
    } else {
        assert(after(s, 0) =~= s);
    }
}

/// A prefix of class members is no longer than the run.
pub proof fn lemma_run_len_at_least(s: Seq<char>, class: CharClass, n: nat)
    requires
        n <= s.len(),
        forall|i: int| 0 <= i < n ==> class.admits(#[trigger] s[i]),
    ensures
        n <= run_len(s, class),
    decreases n,
{
    if n > 0 {
        let t = s.drop_first();
        assert(class.admits(s[0]));
        assert forall|i: int| 0 <= i < n - 1 implies class.admits(#[trigger] t[i]) by {
            assert(t[i] == s[i + 1]);
        }
        lemma_run_len_at_least(t, class, (n - 1) as nat);
    }
}

/// The run of a class is no longer than the run of a class that admits at
/// least the same characters.
pub proof fn lemma_run_len_of_wider_class(s: Seq<char>, narrow: CharClass, wide: CharClass)
    requires
        forall|c: char| narrow.admits(c) ==> wide.admits(c),
    ensures
        run_len(s, narrow) <= run_len(s, wide),
{
    lemma_run_len_bound(s, narrow);
    lemma_run_is_maximal(s, narrow);
    lemma_run_len_at_least(s, wide, run_len(s, narrow));
}

/// Every character that a class admits is an ASCII character.
pub proof fn lemma_class_is_ascii(class: CharClass, c: char)
    requires
        class.admits(c),
    ensures
        '\0' <= c <= '\u{7f}',
{
}

/// A text made of members of one class is ASCII.
pub proof fn lemma_run_is_ascii(s: Seq<char>, class: CharClass)
    requires
        forall|i: int| 0 <= i < s.len() ==> class.admits(#[trigger] s[i]),
    ensures
        is_ascii_chars(s),
{
    assert forall|i: int| 0 <= i < s.len() implies '\0' <= #[trigger] s[i] <= '\u{7f}' by {
        lemma_class_is_ascii(class, s[i]);
    }
}

/// The text of every token is ASCII.
pub proof fn lemma_token_is_ascii(token: Token)
    ensures
        is_ascii_chars(token.text()),
        token.text().len() > 0,
{
}

/// Encoding a text is encoding its parts one after the other.
pub proof fn lemma_encode_concat(a: Seq<char>, b: Seq<char>)
    ensures
        encode_utf8(a + b) == encode_utf8(a) + encode_utf8(b),
    decreases a.len(),
{
    if a.len() == 0 {
        assert(a + b =~= b);
        assert(encode_utf8(a) + encode_utf8(b) =~= encode_utf8(b));
    } else {
        assert((a + b).drop_first() =~= a.drop_first() + b);
        lemma_encode_concat(a.drop_first(), b);
        assert(encode_utf8(a + b) =~= encode_utf8(a) + encode_utf8(b));
    }
}

/// A text has at least as many bytes as characters.
pub proof fn lemma_chars_le_bytes(s: Seq<char>)
    ensures
        s.len() <= encode_utf8(s).len(),
    decreases s.len(),
{
    if s.len() > 0 {
        lemma_chars_le_bytes(s.drop_first());
    }
}

/// A text with as many bytes as characters is ASCII.
pub proof fn lemma_one_byte_each_is_ascii(s: Seq<char>)
    requires
        encode_utf8(s).len() == s.len(),
    ensures
        is_ascii_chars(s),
    decreases s.len(),
{
    if s.len() > 0 {
        let t = s.drop_first();
        let code: u32 = s[0] as u32;
        lemma_chars_le_bytes(t);
        assert(encode_utf8(s) == encode_scalar(code) + encode_utf8(t));
        assert(encode_scalar(code).len() == 1);
        assert(has_width_1_encoding(code));
        char_u32_cast(s[0], code);
        assert(s[0] <= '\u{7f}');
        lemma_one_byte_each_is_ascii(t);
        assert forall|i: int| 0 <= i < s.len() implies '\0' <= #[trigger] s[i] <= '\u{7f}' by {
            if i > 0 {
                assert(s[i] == t[i - 1]);
                assert('\0' <= t[i - 1] <= '\u{7f}');
            }
        }
    }
}

/// Where the first `n` characters of `s` are ASCII, what follows them is `n`
/// bytes shorter than `s`.
pub proof fn lemma_ascii_prefix_bytes(s: Seq<char>, n: nat)
    requires
        n <= s.len(),
        is_ascii_chars(s.take(n as int)),
    ensures
        encode_utf8(s).len() == n + encode_utf8(s.skip(n as int)).len(),
{
    assert(s =~= s.take(n as int) + s.skip(n as int));
    lemma_encode_concat(s.take(n as int), s.skip(n as int));
    is_ascii_chars_encode_utf8(s.take(n as int));
}

} // verus!
