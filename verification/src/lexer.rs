//! Character-level tokenizer: a finite state machine over the markup syntax.
//!
//! The machine reads the input one character at a time and emits a finite
//! sequence of tokens ending in exactly one `Eof`. Tag names are folded to
//! lowercase (ASCII case folding) as they are accumulated.

use vstd::prelude::*;

use crate::strutil::{char_is_alphabetic, is_alpha, push_char};

verus! {

/// The tokenizer's states.
#[derive(Debug, PartialEq)]
pub enum State {
    Data,
    TagOpen,
    EndTagOpen,
    TagName,
    SelfClosingStartTag,
}

/// The four kinds of token.
#[derive(Debug, Clone, PartialEq)]
pub enum TokenType {
    StartTag,
    EndTag,
    Char,
    Eof,
}

/// One lexical token. `StartTag` and `EndTag` tokens carry a tag name,
/// `Char` tokens carry literal text, and `Eof` carries nothing.
#[derive(Debug, Clone, PartialEq)]
pub struct Token {
    pub token_type: TokenType,
    pub tag_name: Option<String>,
    pub self_closing: bool,
    pub data: Option<String>,
}

/// The mathematical image of a [`Token`]: the same shape over sequences
/// of characters.
pub ghost struct TokenModel {
    pub token_type: TokenType,
    pub tag_name: Option<Seq<char>>,
    pub self_closing: bool,
    pub data: Option<Seq<char>>,
}

impl View for Token {
    type V = TokenModel;

    open spec fn view(&self) -> TokenModel {
        TokenModel {
            token_type: self.token_type,
            tag_name: match self.tag_name {
                Some(s) => Some(s@),
                None => None,
            },
            self_closing: self.self_closing,
            data: match self.data {
                Some(s) => Some(s@),
                None => None,
            },
        }
    }
}

impl Token {
    /// Builds a token from its parts.
    pub fn new(
        token_type: TokenType,
        tag_name: Option<String>,
        self_closing: bool,
        data: Option<String>,
    ) -> (r: Self)
        ensures
            r@ == (TokenModel {
                token_type,
                tag_name: match tag_name {
                    Some(s) => Some(s@),
                    None => None,
                },
                self_closing,
                data: match data {
                    Some(s) => Some(s@),
                    None => None,
                },
            }),
    {
        Token { token_type, tag_name, self_closing, data }
    }
}

/// ASCII case folding of one character: an ASCII uppercase letter becomes
/// the corresponding lowercase letter, every other character is unchanged.
pub open spec fn fold_char(c: char) -> char {
    if 'A' <= c && c <= 'Z' {
        ((c as u8) + 32) as char
    } else {
        c
    }
}

/// A token under construction, together with the emitted output, make up
/// the machine's configuration between two characters.
#[verifier::ext_equal]
pub ghost struct LexConfig {
    pub state: State,
    pub current: Option<TokenModel>,
    pub out: Seq<TokenModel>,
}

pub open spec fn char_token(c: char) -> TokenModel {
    TokenModel {
        token_type: TokenType::Char,
        tag_name: None,
        self_closing: false,
        data: Some(seq![c]),
    }
}

pub open spec fn open_tag_token(kind: TokenType, c: char) -> TokenModel {
    TokenModel { token_type: kind, tag_name: Some(seq![fold_char(c)]), self_closing: false, data: None }
}

pub open spec fn eof_token() -> TokenModel {
    TokenModel { token_type: TokenType::Eof, tag_name: None, self_closing: false, data: None }
}

/// Appends one folded character to the in-progress token's name, if a token
/// is in progress.
pub open spec fn append_name(cur: Option<TokenModel>, c: char) -> Option<TokenModel> {
    match cur {
        Some(t) => Some(TokenModel {
            tag_name: match t.tag_name {
                Some(n) => Some(n.push(fold_char(c))),
                None => None,
            },
            ..t
        }),
        None => cur,
    }
}

/// One transition of the state machine on character `c`.
///
/// Two deliberately preserved policies: in `TagOpen`, a character that is
/// neither `/` nor alphabetic emits a literal `<` and is itself dropped;
/// in `EndTagOpen`, a non-alphabetic character is absorbed silently and the
/// state does not change.
pub open spec fn lex_step(cfg: LexConfig, c: char) -> LexConfig {
    match cfg.state {
        State::Data => {
            if c == '<' {
                LexConfig { state: State::TagOpen, ..cfg }
            } else {
                LexConfig { out: cfg.out.push(char_token(c)), ..cfg }
            }
        },
        State::TagOpen => {
            if c == '/' {
                LexConfig { state: State::EndTagOpen, ..cfg }
            } else if is_alpha(c) {
                LexConfig {
                    state: State::TagName,
                    current: Some(open_tag_token(TokenType::StartTag, c)),
                    ..cfg
                }
            } else {
                LexConfig { state: State::Data, out: cfg.out.push(char_token('<')), ..cfg }
            }
        },
        State::EndTagOpen => {
            if is_alpha(c) {
                LexConfig {
                    state: State::TagName,
                    current: Some(open_tag_token(TokenType::EndTag, c)),
                    ..cfg
                }
            } else {
                cfg
            }
        },
        State::TagName => {
            if c == '/' {
                LexConfig { state: State::SelfClosingStartTag, ..cfg }
            } else if c == '>' {
                match cfg.current {
                    Some(t) => LexConfig { state: State::Data, current: None, out: cfg.out.push(t) },
                    None => LexConfig { state: State::Data, ..cfg },
                }
            } else {
                LexConfig { current: append_name(cfg.current, c), ..cfg }
            }
        },
        State::SelfClosingStartTag => {
            if c == '>' {
                match cfg.current {
                    Some(t) => {
                        let emitted = TokenModel { self_closing: true, ..t };
                        LexConfig { state: State::Data, current: None, out: cfg.out.push(emitted) }
                    },
                    None => LexConfig { state: State::Data, ..cfg },
                }
            } else {
                cfg
            }
        },
    }
}

/// The machine's configuration after reading the first `n` characters of
/// `input`, starting from the initial configuration.
pub open spec fn lex_at(input: Seq<char>, n: int) -> LexConfig
    decreases n,
{
    if n <= 0 {
        LexConfig { state: State::Data, current: None, out: Seq::empty() }
    } else {
        lex_step(lex_at(input, n - 1), input[n - 1])
    }
}

/// The token sequence for a whole input: everything the machine emits,
/// followed by exactly one `Eof`.
pub open spec fn spec_tokenize(input: Seq<char>) -> Seq<TokenModel> {
    lex_at(input, input.len() as int).out.push(eof_token())
}

/// Runs the tokenizer over the whole input and returns the token sequence,
/// which always ends in exactly one `Eof` token.
pub fn tokenize(xml: &str) -> (tokens: Vec<Token>)
    ensures
        tokens@.map_values(|t: Token| t@) == spec_tokenize(xml@),
        tokens@.len() >= 1,
{
    let n = xml.unicode_len();
    let mut tokens: Vec<Token> = Vec::new();
    let mut state = State::Data;
    let mut current_token: Option<Token> = None;

    proof {
        assert(tokens@.map_values(|t: Token| t@) =~= lex_at(xml@, 0).out);
    }
    let mut i: usize = 0;
    while i < n
        invariant
            n == xml@.len(),
            i <= n,
            state == lex_at(xml@, i as int).state,
            (match current_token {
                Some(t) => Some(t@),
                None => None,
            }) == lex_at(xml@, i as int).current,
            tokens@.map_values(|t: Token| t@) == lex_at(xml@, i as int).out,
        decreases n - i,
    {
        let ghost pre = lex_at(xml@, i as int);
        let c = xml.get_char(i);
        match state {
            State::Data => {
                if c == '<' {
                    state = State::TagOpen;
                } else {
                    let mut data = String::new();
                    push_char(&mut data, c);
                    tokens.push(Token::new(TokenType::Char, None, false, Some(data)));
                }
            },
            State::TagOpen => {
                if c == '/' {
                    state = State::EndTagOpen;
                } else if char_is_alphabetic(c) {
                    let mut name = String::new();
                    push_char(&mut name, fold_char_exec(c));
                    current_token = Some(Token::new(TokenType::StartTag, Some(name), false, None));
                    state = State::TagName;
                } else {
                    let mut data = String::new();
                    push_char(&mut data, '<');
                    tokens.push(Token::new(TokenType::Char, None, false, Some(data)));
                    state = State::Data;
                }
            },
            State::EndTagOpen => {
                if char_is_alphabetic(c) {
                    let mut name = String::new();
                    push_char(&mut name, fold_char_exec(c));
                    current_token = Some(Token::new(TokenType::EndTag, Some(name), false, None));
                    state = State::TagName;
                }
            },
            State::TagName => {
                if c == '/' {
                    state = State::SelfClosingStartTag;
                } else if c == '>' {
                    if let Some(token) = current_token {
                        tokens.push(token);
                    }
                    current_token = None;
                    state = State::Data;
                } else {
                    if let Some(token) = &mut current_token {
                        if let Some(name) = &mut token.tag_name {
                            push_char(name, fold_char_exec(c));
                        }
                    }
                }
            },
            State::SelfClosingStartTag => {
                if c == '>' {
                    if let Some(mut token) = current_token {
                        token.self_closing = true;
                        tokens.push(token);
                    }
                    current_token = None;
                    state = State::Data;
                }
            },
        }
        proof {
            assert(lex_at(xml@, i + 1 as int) == lex_step(pre, xml@[i as int]));
            assert(tokens@.map_values(|t: Token| t@) =~= lex_step(pre, xml@[i as int]).out);
            assert((match current_token {
                Some(t) => Some(t@),
                None => None,
            }) == lex_step(pre, xml@[i as int]).current);
        }
        i = i + 1;
    }

    tokens.push(Token::new(TokenType::Eof, None, false, None));
    proof {
        assert(tokens@.map_values(|t: Token| t@) =~= spec_tokenize(xml@));
    }
    tokens
}

/// ASCII case folding, executably: the executable image of [`fold_char`].
fn fold_char_exec(c: char) -> (r: char)
    ensures
        r == fold_char(c),
{
    if 'A' <= c && c <= 'Z' {
        ((c as u8) + 32) as char
    } else {
        c
    }
}

} // verus!
