use vstd::prelude::*;
use vstd::string::StrSliceExecFns;

verus! {

/// One lexical unit: a number literal or one of the four operator symbols.
#[derive(Debug, Clone, Copy, PartialEq, Eq, Structural)]
pub enum Token {
    Number(i64),
    Plus,
    Dash,
    Star,
    Slash,
}

/// A lexical failure: a character outside the language's alphabet, or a
/// digit run whose value does not fit in an `i64`.
#[derive(Debug, Clone, Copy, PartialEq, Eq, Structural)]
pub enum LexError {
    UnrecognisedCharacter(char),
    NumberOverflow,
}

/// The Unicode White_Space property: the code points that
/// `char::is_whitespace` accepts.
pub open spec fn is_unicode_whitespace(c: char) -> bool {
    let u = c as u32;
    (0x9 <= u && u <= 0xd) || u == 0x20 || u == 0x85 || u == 0xa0 || u == 0x1680 || (0x2000 <= u
        && u <= 0x200a) || u == 0x2028 || u == 0x2029 || u == 0x202f || u == 0x205f || u == 0x3000
}

/// Relies on char::is_whitespace: true exactly for the characters with the
/// Unicode White_Space property, the fixed code-point list spelled out in
/// `is_unicode_whitespace`.
pub assume_specification[ char::is_whitespace ](c: char) -> (r: bool)
    ensures
        r == is_unicode_whitespace(c),
;

/// An ASCII decimal digit.
pub open spec fn is_digit_char(c: char) -> bool {
    48 <= c as u32 && c as u32 <= 57
}

/// The numeric value of an ASCII decimal digit.
pub open spec fn digit_val(c: char) -> int {
    c as u32 - 48
}

/// Prepend one token to the sequence inside a successful result, passing an
/// error through.
pub open spec fn prepend_one(t: Token, r: Result<Seq<Token>, LexError>) -> Result<
    Seq<Token>,
    LexError,
> {
    match r {
        Ok(ts) => Ok(seq![t] + ts),
        Err(e) => Err(e),
    }
}

/// Prepend finished tokens to the sequence inside a successful result,
/// passing an error through.
pub open spec fn prepend_tokens(pre: Seq<Token>, r: Result<Seq<Token>, LexError>) -> Result<
    Seq<Token>,
    LexError,
> {
    match r {
        Ok(ts) => Ok(pre + ts),
        Err(e) => Err(e),
    }
}

/// One step of lexing: `pending` is the value of the digit run read so far,
/// if the cursor stands inside one. A digit extends the run; anything else
/// ends it, emitting its number (or an overflow error) before the boundary
/// character is examined. Outside a run, whitespace is skipped, the four
/// operator characters become their tokens, a digit opens a run, and any
/// other character is an immediate error.
pub open spec fn spec_lex(s: Seq<char>, pending: Option<int>) -> Result<Seq<Token>, LexError>
    decreases s.len(), (if pending is Some { 1int } else { 0int }),
{
    match pending {
        Some(v) => {
            if s.len() > 0 && is_digit_char(s[0]) {
                spec_lex(s.skip(1), Some(v * 10 + digit_val(s[0])))
            } else if v > i64::MAX {
                Err(LexError::NumberOverflow)
            } else {
                prepend_one(Token::Number(v as i64), spec_lex(s, None))
            }
        },
        None => {
            if s.len() == 0 {
                Ok(Seq::empty())
            } else {
                let c = s[0];
                if is_unicode_whitespace(c) {
                    spec_lex(s.skip(1), None)
                } else if c == '+' {
                    prepend_one(Token::Plus, spec_lex(s.skip(1), None))
                } else if c == '-' {
                    prepend_one(Token::Dash, spec_lex(s.skip(1), None))
                } else if c == '*' {
                    prepend_one(Token::Star, spec_lex(s.skip(1), None))
                } else if c == '/' {
                    prepend_one(Token::Slash, spec_lex(s.skip(1), None))
                } else if is_digit_char(c) {
                    spec_lex(s.skip(1), Some(digit_val(c)))
                } else {
                    Err(LexError::UnrecognisedCharacter(c))
                }
            }
        },
    }
}

/// The token sequence of an input text, or its first lexical error.
pub open spec fn spec_tokenize(s: Seq<char>) -> Result<Seq<Token>, LexError> {
    spec_lex(s, None)
}

/// Once the value of a digit run has left the `i64` range, reading further
/// digits cannot bring it back: the run ends in an overflow error.
proof fn lemma_overflow_sticky(s: Seq<char>, v: int)
    requires
        v > i64::MAX,
    ensures
        spec_lex(s, Some(v)) == Err::<Seq<Token>, LexError>(LexError::NumberOverflow),
    decreases s.len(),
{
    if s.len() > 0 && is_digit_char(s[0]) {
        lemma_overflow_sticky(s.skip(1), v * 10 + digit_val(s[0]));
    }
}

/// Moving a freshly finished token from the front of the pending result to
/// the back of the finished prefix changes nothing.
proof fn lemma_prepend_shift(pre: Seq<Token>, t: Token, r: Result<Seq<Token>, LexError>)
    ensures
        prepend_tokens(pre.push(t), r) == prepend_tokens(pre, prepend_one(t, r)),
{
    match r {
        Ok(ts) => {
            assert(pre.push(t) + ts =~= pre + (seq![t] + ts));
        },
        Err(_) => {},
    }
}

/// The input text with its whitespace characters removed.
pub open spec fn strip_ws(s: Seq<char>) -> Seq<char>
    decreases s.len(),
{
    if s.len() == 0 {
        Seq::empty()
    } else if is_unicode_whitespace(s[0]) {
        strip_ws(s.skip(1))
    } else {
        seq![s[0]] + strip_ws(s.skip(1))
    }
}

/// Every character of `t` is an ASCII decimal digit.
pub open spec fn all_digits(t: Seq<char>) -> bool {
    forall|j: int| 0 <= j < t.len() ==> is_digit_char(t[j])
}

/// The base-10 value of a digit string.
pub open spec fn digits_value(t: Seq<char>) -> int
    decreases t.len(),
{
    if t.len() == 0 {
        0
    } else {
        digits_value(t.drop_last()) * 10 + digit_val(t.last())
    }
}

/// `text` is a source text that lexes to exactly the token `t`: the
/// operator's own character, or a nonempty digit run with the number's
/// value.
pub open spec fn token_text(text: Seq<char>, t: Token) -> bool {
    match t {
        Token::Number(n) => text.len() > 0 && all_digits(text) && digits_value(text) == n as int,
        Token::Plus => text == seq!['+'],
        Token::Dash => text == seq!['-'],
        Token::Star => text == seq!['*'],
        Token::Slash => text == seq!['/'],
    }
}

/// The concatenation of a sequence of texts, in order.
pub open spec fn concat_texts(ts: Seq<Seq<char>>) -> Seq<char>
    decreases ts.len(),
{
    if ts.len() == 0 {
        Seq::empty()
    } else {
        ts[0] + concat_texts(ts.drop_first())
    }
}

/// Each token is matched, in order, with a source text of its own.
pub open spec fn texts_cover(texts: Seq<Seq<char>>, toks: Seq<Token>) -> bool {
    texts.len() == toks.len() && (forall|j: int|
        0 <= j < toks.len() ==> token_text(texts[j], toks[j]))
}

/// The digit run whose text is `ptext`, as the lexer's pending state.
pub open spec fn pending_of(ptext: Seq<char>) -> Option<int> {
    if ptext.len() == 0 {
        None
    } else {
        Some(digits_value(ptext))
    }
}

proof fn lemma_digits_value_nonneg(t: Seq<char>)
    requires
        all_digits(t),
    ensures
        digits_value(t) >= 0,
    decreases t.len(),
{
    if t.len() > 0 {
        lemma_digits_value_nonneg(t.drop_last());
    }
}

proof fn lemma_lex_cover(s: Seq<char>, ptext: Seq<char>)
    requires
        all_digits(ptext),
        spec_lex(s, pending_of(ptext)) is Ok,
    ensures
        exists|texts: Seq<Seq<char>>|
            texts_cover(texts, spec_lex(s, pending_of(ptext))->Ok_0) && concat_texts(texts)
                == ptext + strip_ws(s),
    decreases s.len(), ptext.len(),
{
    let r = spec_lex(s, pending_of(ptext));
    let toks = r->Ok_0;
    if ptext.len() > 0 {
        let v = digits_value(ptext);
        lemma_digits_value_nonneg(ptext);
        if s.len() > 0 && is_digit_char(s[0]) {
            let ptext2 = ptext.push(s[0]);
            assert(ptext2.drop_last() =~= ptext);
            assert(digits_value(ptext2) == v * 10 + digit_val(s[0]));
            lemma_lex_cover(s.skip(1), ptext2);
            let w = choose|texts: Seq<Seq<char>>|
                texts_cover(texts, spec_lex(s.skip(1), pending_of(ptext2))->Ok_0) && concat_texts(
                    texts,
                ) == ptext2 + strip_ws(s.skip(1));
            assert(texts_cover(w, toks));
            assert(ptext2 + strip_ws(s.skip(1)) =~= ptext + (seq![s[0]] + strip_ws(s.skip(1))));
            assert(concat_texts(w) == ptext + strip_ws(s));
        } else {
            let rest = spec_lex(s, None)->Ok_0;
            lemma_lex_cover(s, Seq::empty());
            let w0 = choose|texts: Seq<Seq<char>>|
                texts_cover(texts, spec_lex(s, pending_of(Seq::<char>::empty()))->Ok_0)
                    && concat_texts(texts) == Seq::<char>::empty() + strip_ws(s);
            let w = seq![ptext] + w0;
            assert(toks == seq![Token::Number(v as i64)] + rest);
            assert forall|j: int| 0 <= j < toks.len() implies token_text(w[j], toks[j]) by {
                if j == 0 {
                    assert(w[0] == ptext);
                    assert(token_text(ptext, Token::Number(v as i64)));
                } else {
                    assert(w[j] == w0[j - 1]);
                    assert(toks[j] == rest[j - 1]);
                }
            }
            assert(texts_cover(w, toks));
            assert(w.drop_first() =~= w0);
            assert(concat_texts(w) == ptext + (Seq::<char>::empty() + strip_ws(s)));
            assert(ptext + (Seq::<char>::empty() + strip_ws(s)) =~= ptext + strip_ws(s));
            assert(concat_texts(w) == ptext + strip_ws(s));
        }
    } else {
        if s.len() == 0 {
            let w = Seq::<Seq<char>>::empty();
            assert(texts_cover(w, toks));
            assert(ptext + strip_ws(s) =~= Seq::<char>::empty());
            assert(concat_texts(w) == ptext + strip_ws(s));
        } else {
            let c = s[0];
            if is_unicode_whitespace(c) {
                lemma_lex_cover(s.skip(1), Seq::empty());
                let w = choose|texts: Seq<Seq<char>>|
                    texts_cover(texts, spec_lex(s.skip(1), pending_of(Seq::<char>::empty()))->Ok_0)
                        && concat_texts(texts) == Seq::<char>::empty() + strip_ws(s.skip(1));
                assert(texts_cover(w, toks));
                assert(concat_texts(w) == ptext + strip_ws(s));
            } else if c == '+' || c == '-' || c == '*' || c == '/' {
                let tok = if c == '+' {
                    Token::Plus
                } else if c == '-' {
                    Token::Dash
                } else if c == '*' {
                    Token::Star
                } else {
                    Token::Slash
                };
                let rest = spec_lex(s.skip(1), None)->Ok_0;
                lemma_lex_cover(s.skip(1), Seq::empty());
                let w0 = choose|texts: Seq<Seq<char>>|
                    texts_cover(texts, spec_lex(s.skip(1), pending_of(Seq::<char>::empty()))->Ok_0)
                        && concat_texts(texts) == Seq::<char>::empty() + strip_ws(s.skip(1));
                let w = seq![seq![c]] + w0;
                assert(toks == seq![tok] + rest);
                assert forall|j: int| 0 <= j < toks.len() implies token_text(w[j], toks[j]) by {
                    if j == 0 {
                        assert(w[0] == seq![c]);
                        assert(token_text(seq![c], tok));
                    } else {
                        assert(w[j] == w0[j - 1]);
                        assert(toks[j] == rest[j - 1]);
                    }
                }
                assert(texts_cover(w, toks));
                assert(w.drop_first() =~= w0);
                assert(concat_texts(w) == seq![c] + (Seq::<char>::empty() + strip_ws(s.skip(1))));
                assert(seq![c] + (Seq::<char>::empty() + strip_ws(s.skip(1))) =~= ptext + strip_ws(
                    s,
                ));
                assert(concat_texts(w) == ptext + strip_ws(s));
            } else {
                let ptext2 = seq![c];
                assert(ptext2.drop_last() =~= Seq::<char>::empty());
                assert(ptext2.last() == c);
                assert(digits_value(Seq::<char>::empty()) == 0);
                assert(digits_value(ptext2) == digit_val(c));
                lemma_lex_cover(s.skip(1), ptext2);
                let w = choose|texts: Seq<Seq<char>>|
                    texts_cover(texts, spec_lex(s.skip(1), pending_of(ptext2))->Ok_0)
                        && concat_texts(texts) == ptext2 + strip_ws(s.skip(1));
                assert(texts_cover(w, toks));
                assert(ptext2 + strip_ws(s.skip(1)) =~= ptext + strip_ws(s));
                assert(concat_texts(w) == ptext + strip_ws(s));
            }
        }
    }
}

/// LAW: source coverage. Whenever the lexer succeeds, every produced token
/// has a source text — an operator's own character, or a number's digit run
/// — and those texts, concatenated in token order, are exactly the input
/// text with all whitespace removed.
pub proof fn lemma_tokens_cover_input(s: Seq<char>)
    requires
        spec_tokenize(s) is Ok,
    ensures
        exists|texts: Seq<Seq<char>>|
            texts_cover(texts, spec_tokenize(s)->Ok_0) && concat_texts(texts) == strip_ws(s),
{
    lemma_lex_cover(s, Seq::empty());
    let w = choose|texts: Seq<Seq<char>>|
        texts_cover(texts, spec_lex(s, pending_of(Seq::<char>::empty()))->Ok_0) && concat_texts(
            texts,
        ) == Seq::<char>::empty() + strip_ws(s);
    assert(texts_cover(w, spec_tokenize(s)->Ok_0));
    assert(Seq::<char>::empty() + strip_ws(s) =~= strip_ws(s));
    assert(concat_texts(w) == strip_ws(s));
}

/// Turn the input text into its token sequence in one forward pass: skip
/// whitespace, map the four operator characters to their tokens, read each
/// maximal ASCII digit run as a base-10 number, and stop at the first
/// character that is none of these or at the first run that overflows `i64`.
pub fn tokeniser(input: String) -> (r: Result<Vec<Token>, LexError>)
    ensures
        match (r, spec_tokenize(input@)) {
            (Ok(v), Ok(ts)) => v@ == ts,
            (Err(e), Err(se)) => e == se,
            _ => false,
        },
{
    let s = input.as_str();
    let n = s.unicode_len();
    let mut tokens: Vec<Token> = Vec::new();
    let mut pending: Option<i64> = None;
    let mut i: usize = 0;
    proof {
        assert(input@.skip(0) =~= input@);
        if spec_tokenize(input@) is Ok {
            assert(Seq::<Token>::empty() + spec_tokenize(input@)->Ok_0 =~= spec_tokenize(
                input@,
            )->Ok_0);
        }
    }
    while i < n
        invariant
            s@ == input@,
            n == input@.len(),
            i <= n,
            match pending {
                Some(v) => v >= 0 && prepend_tokens(
                    tokens@,
                    spec_lex(input@.skip(i as int), Some(v as int)),
                ) == spec_tokenize(input@),
                None => prepend_tokens(tokens@, spec_lex(input@.skip(i as int), None))
                    == spec_tokenize(input@),
            },
        decreases n - i, (if pending is Some { 1int } else { 0int }),
    {
        let c = s.get_char(i);
        proof {
            assert(input@.skip(i as int)[0] == c);
            assert(input@.skip(i as int).skip(1) =~= input@.skip(i as int + 1));
        }
        match pending {
            Some(v) => {
                let u = c as u32;
                if 48 <= u && u <= 57 {
                    let d = (u - 48) as i64;
                    let grown = match v.checked_mul(10) {
                        Some(x) => x.checked_add(d),
                        None => None,
                    };
                    match grown {
                        Some(w) => {
                            pending = Some(w);
                            i = i + 1;
                        },
                        None => {
                            proof {
                                assert(digit_val(c) == d as int);
                                assert(v as int * 10 + digit_val(c) > i64::MAX);
                                lemma_overflow_sticky(
                                    input@.skip(i as int + 1),
                                    v as int * 10 + digit_val(c),
                                );
                            }
                            return Err(LexError::NumberOverflow);
                        },
                    }
                } else {
                    proof {
                        lemma_prepend_shift(
                            tokens@,
                            Token::Number(v),
                            spec_lex(input@.skip(i as int), None),
                        );
                    }
                    tokens.push(Token::Number(v));
                    pending = None;
                }
            },
            None => {
                if c.is_whitespace() {
                    i = i + 1;
                } else if c == '+' {
                    proof {
                        lemma_prepend_shift(
                            tokens@,
                            Token::Plus,
                            spec_lex(input@.skip(i as int + 1), None),
                        );
                    }
                    tokens.push(Token::Plus);
                    i = i + 1;
                } else if c == '-' {
                    proof {
                        lemma_prepend_shift(
                            tokens@,
                            Token::Dash,
                            spec_lex(input@.skip(i as int + 1), None),
                        );
                    }
                    tokens.push(Token::Dash);
                    i = i + 1;
                } else if c == '*' {
                    proof {
                        lemma_prepend_shift(
                            tokens@,
                            Token::Star,
                            spec_lex(input@.skip(i as int + 1), None),
                        );
                    }
                    tokens.push(Token::Star);
                    i = i + 1;
                } else if c == '/' {
                    proof {
                        lemma_prepend_shift(
                            tokens@,
                            Token::Slash,
                            spec_lex(input@.skip(i as int + 1), None),
                        );
                    }
                    tokens.push(Token::Slash);
                    i = i + 1;
                } else {
                    let u = c as u32;
                    if 48 <= u && u <= 57 {
                        pending = Some((u - 48) as i64);
                        i = i + 1;
                    } else {
                        return Err(LexError::UnrecognisedCharacter(c));
                    }
                }
            },
        }
    }
    proof {
        assert(input@.skip(n as int) =~= Seq::<char>::empty());
    }
    match pending {
        Some(v) => {
            proof {
                lemma_prepend_shift(tokens@, Token::Number(v), spec_lex(Seq::<char>::empty(), None));
                assert(tokens@.push(Token::Number(v)) + Seq::<Token>::empty() =~= tokens@.push(
                    Token::Number(v),
                ));
            }
            tokens.push(Token::Number(v));
            Ok(tokens)
        },
        None => {
            proof {
                assert(tokens@ + Seq::<Token>::empty() =~= tokens@);
            }
            Ok(tokens)
        },
    }
}

} // verus!
