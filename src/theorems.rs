use vstd::prelude::*;

use crate::grammar::{
    char_at, eof_token, lemma_step_bounds, line_at, newlines, scan, scan_from,
    single_kind, step, Step,
};
use crate::token::{TokenSpec, TokenType};

verus! {

/// The kind of the token that a text made of `c` alone gives, where `c` is
/// one of the single-character punctuation marks.
pub open spec fn punctuation_kind(c: char) -> Option<TokenType> {
    if c == '/' {
        Some(TokenType::SLASH)
    } else {
        single_kind(c)
    }
}

/// A text made of one punctuation character scans to one token of that
/// character's kind, whose lexeme is the character, on line 1, followed by
/// `EOF` on line 1.
pub proof fn single_punctuation(c: char)
    requires
        punctuation_kind(c) is Some,
    ensures
        scan(seq![c]) == Ok::<Seq<TokenSpec>, crate::grammar::ScanError>(
            seq![
                TokenSpec {
                    kind: punctuation_kind(c)->0,
                    lexeme: seq![c],
                    line: 1,
                    literal: None,
                },
                TokenSpec { kind: TokenType::EOF, lexeme: Seq::empty(), line: 1, literal: None },
            ],
        ),
{
    let s = seq![c];
    assert(s.subrange(0, 0) =~= Seq::<char>::empty());
    assert(s.subrange(0, 1) =~= s);
    assert(s.drop_last() =~= Seq::<char>::empty());
    assert(newlines(s) == 0);
    assert(char_at(s, 1) == '\0');
    assert(line_at(s, 0) == 1);
    assert(line_at(s, 1) == 1);
    let t = TokenSpec { kind: punctuation_kind(c)->0, lexeme: seq![c], line: 1, literal: None };
    assert(step(s, 0) == Step::Emit(1, t));
    assert(scan_from(s, 1) == Ok::<Seq<TokenSpec>, crate::grammar::ScanError>(seq![eof_token(s)]));
    assert(seq![t] + seq![eof_token(s)] =~= seq![t, eof_token(s)]);
}

/// Token `t` stands in `s` at position `p`: its lexeme is the text there,
/// and its line is one more than the number of newlines before `p`.
pub open spec fn placed_at(s: Seq<char>, t: TokenSpec, p: int) -> bool {
    &&& 0 <= p
    &&& p + t.lexeme.len() <= s.len()
    &&& t.lexeme == s.subrange(p, p + t.lexeme.len())
    &&& t.line == 1 + newlines(s.subrange(0, p))
}

/// Token `t` stands somewhere in `s`.
pub open spec fn placed(s: Seq<char>, t: TokenSpec) -> bool {
    exists|p: int| placed_at(s, t, p)
}

proof fn lemma_placed_from(s: Seq<char>, q: int)
    requires
        0 <= q <= s.len(),
    ensures
        scan_from(s, q) is Ok ==> forall|i: int|
            0 <= i < scan_from(s, q)->Ok_0.len() ==> placed(s, #[trigger] scan_from(s, q)->Ok_0[i]),
    decreases s.len() - q,
{
    if q >= s.len() {
        let e = eof_token(s);
        assert(s.subrange(s.len() as int, s.len() as int) =~= e.lexeme);
        assert(placed_at(s, e, s.len() as int));
    } else {
        lemma_step_bounds(s, q);
        match step(s, q) {
            Step::Skip(n) => {
                lemma_placed_from(s, n);
            },
            Step::Emit(n, t) => {
                lemma_placed_from(s, n);
                assert(placed_at(s, t, q));
                if let Ok(rest) = scan_from(s, n) {
                    let all = seq![t] + rest;
                    assert forall|i: int| 0 <= i < all.len() implies placed(s, #[trigger] all[i]) by {
                        if i > 0 {
                            assert(all[i] == rest[i - 1]);
                        }
                    }
                }
            },
            Step::Fail(_) => {},
        }
    }
}

/// Every token of a successful scan stands in the text at some position
/// `p`, and its line is one more than the number of newlines before `p`.
pub proof fn token_lines(s: Seq<char>)
    ensures
        scan(s) is Ok ==> forall|i: int|
            0 <= i < scan(s)->Ok_0.len() ==> placed(s, #[trigger] scan(s)->Ok_0[i]),
{
    lemma_placed_from(s, 0);
}

} // verus!
