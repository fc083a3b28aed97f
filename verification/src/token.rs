//! Token categories and the mathematical description of tokenization.
//!
//! `tokens_of` says, for any byte sequence, exactly which token categories a
//! scan of it yields, in order. The executable scanner in `crate::scanner` is
//! proved to produce this sequence token by token.

use vstd::prelude::*;

verus! {

/// The lexical category of a recognized run of input bytes.
///
/// A token carries only its category: no lexeme text, numeric value or
/// position is retained.
#[derive(Clone, Copy, Debug, PartialEq, Eq, Structural)]
pub enum Token {
    /// A maximal run of ASCII letters (`a`-`z`, `A`-`Z`) and underscores.
    Identifier,
    /// A maximal run of ASCII digits (`0`-`9`).
    Number,
    /// `+`
    Add,
    /// `-`
    Subtract,
    /// `*`
    Multiply,
    /// `/`
    Divide,
    /// `=`
    Assign,
    /// `;`
    Semicolon,
}

/// A byte that starts or extends an identifier run: an ASCII letter or `_`.
/// Digits do not extend an identifier; letter runs and digit runs are
/// disjoint alphabets.
pub open spec fn is_identifier_byte(b: u8) -> bool {
    (97 <= b && b <= 122)  // 'a'..='z'
     || (65 <= b && b <= 90)  // 'A'..='Z'
     || b == 95  // '_'

}

/// A byte that starts or extends a number run: an ASCII digit.
pub open spec fn is_digit_byte(b: u8) -> bool {
    48 <= b && b <= 57  // '0'..='9'

}

/// A whitespace byte: space, tab or newline. Whitespace is consumed and
/// produces no token.
pub open spec fn is_whitespace_byte(b: u8) -> bool {
    b == 32  // ' '
     || b == 9  // '\t'
     || b == 10  // '\n'

}

/// A single-byte operator of the language.
pub open spec fn is_operator_byte(b: u8) -> bool {
    b == 43  // '+'
     || b == 45  // '-'
     || b == 42  // '*'
     || b == 47  // '/'
     || b == 61  // '='
     || b == 59  // ';'

}

/// The token emitted for an operator byte.
pub open spec fn operator_token(b: u8) -> Token
    recommends
        is_operator_byte(b),
{
    if b == 43 {
        Token::Add  // '+'
    } else if b == 45 {
        Token::Subtract  // '-'
    } else if b == 42 {
        Token::Multiply  // '*'
    } else if b == 47 {
        Token::Divide  // '/'
    } else if b == 61 {
        Token::Assign  // '='
    } else {
        Token::Semicolon  // ';'
    }
}

/// A byte that belongs to some recognized class. Any other byte is invalid
/// and ends the scan.
pub open spec fn is_recognized_byte(b: u8) -> bool {
    is_identifier_byte(b) || is_digit_byte(b) || is_whitespace_byte(b) || is_operator_byte(b)
}

/// The sequence of tokens that a scan of `s` yields, in order.
///
/// Whitespace is skipped; a letter/underscore run yields one `Identifier`, a
/// digit run one `Number`, an operator byte its own token; the sequence ends
/// at end of input or at the first unrecognized byte.
pub open spec fn tokens_of(s: Seq<u8>) -> Seq<Token>
    decreases s.len(), 0int,
{
    if s.len() == 0 {
        Seq::empty()
    } else if is_whitespace_byte(s[0]) {
        tokens_of(s.skip(1))
    } else if is_identifier_byte(s[0]) {
        seq![Token::Identifier] + tokens_after_identifier(s.skip(1))
    } else if is_digit_byte(s[0]) {
        seq![Token::Number] + tokens_after_number(s.skip(1))
    } else if is_operator_byte(s[0]) {
        seq![operator_token(s[0])] + tokens_of(s.skip(1))
    } else {
        Seq::empty()
    }
}

/// The tokens that follow an identifier run in progress: the rest of the run
/// is consumed, then scanning resumes with `tokens_of`.
pub open spec fn tokens_after_identifier(s: Seq<u8>) -> Seq<Token>
    decreases s.len(), 1int,
{
    if s.len() > 0 && is_identifier_byte(s[0]) {
        tokens_after_identifier(s.skip(1))
    } else {
        tokens_of(s)
    }
}

/// The tokens that follow a number run in progress: the rest of the run is
/// consumed, then scanning resumes with `tokens_of`.
pub open spec fn tokens_after_number(s: Seq<u8>) -> Seq<Token>
    decreases s.len(), 1int,
{
    if s.len() > 0 && is_digit_byte(s[0]) {
        tokens_after_number(s.skip(1))
    } else {
        tokens_of(s)
    }
}

/// An identifier run in progress over input made only of letters and
/// underscores consumes all of it and yields nothing further.
proof fn lemma_after_identifier_all(s: Seq<u8>)
    requires
        forall|i: int| 0 <= i < s.len() ==> is_identifier_byte(s[i]),
    ensures
        tokens_after_identifier(s) == Seq::<Token>::empty(),
    decreases s.len(),
{
    if s.len() > 0 {
        assert forall|i: int| 0 <= i < s.skip(1).len() implies is_identifier_byte(
            s.skip(1)[i],
        ) by {
            assert(s.skip(1)[i] == s[i + 1]);
        }
        assert(is_identifier_byte(s[0]));
        lemma_after_identifier_all(s.skip(1));
    } else {
        assert(tokens_after_identifier(s) == tokens_of(s));
        assert(tokens_of(s) == Seq::<Token>::empty());
    }
}

/// A number run in progress over input made only of digits consumes all of
/// it and yields nothing further.
proof fn lemma_after_number_all(s: Seq<u8>)
    requires
        forall|i: int| 0 <= i < s.len() ==> is_digit_byte(s[i]),
    ensures
        tokens_after_number(s) == Seq::<Token>::empty(),
    decreases s.len(),
{
    if s.len() > 0 {
        assert forall|i: int| 0 <= i < s.skip(1).len() implies is_digit_byte(s.skip(1)[i]) by {
            assert(s.skip(1)[i] == s[i + 1]);
        }
        assert(is_digit_byte(s[0]));
        lemma_after_number_all(s.skip(1));
    } else {
        assert(tokens_after_number(s) == tokens_of(s));
        assert(tokens_of(s) == Seq::<Token>::empty());
    }
}

/// A nonempty input made solely of letters and underscores yields a single
/// `Identifier` token, whatever the run's length.
pub proof fn lemma_identifier_run(s: Seq<u8>)
    requires
        s.len() > 0,
        forall|i: int| 0 <= i < s.len() ==> is_identifier_byte(s[i]),
    ensures
        tokens_of(s) =~= seq![Token::Identifier],
{
    assert forall|i: int| 0 <= i < s.skip(1).len() implies is_identifier_byte(s.skip(1)[i]) by {
        assert(s.skip(1)[i] == s[i + 1]);
    }
    lemma_after_identifier_all(s.skip(1));
}

/// A nonempty input made solely of digits yields a single `Number` token,
/// whatever the run's length.
pub proof fn lemma_number_run(s: Seq<u8>)
    requires
        s.len() > 0,
        forall|i: int| 0 <= i < s.len() ==> is_digit_byte(s[i]),
    ensures
        tokens_of(s) =~= seq![Token::Number],
{
    assert forall|i: int| 0 <= i < s.skip(1).len() implies is_digit_byte(s.skip(1)[i]) by {
        assert(s.skip(1)[i] == s[i + 1]);
    }
    lemma_after_number_all(s.skip(1));
}

/// An operator byte in isolation yields exactly its own token and nothing
/// after it.
pub proof fn lemma_single_operator(b: u8)
    requires
        is_operator_byte(b),
    ensures
        tokens_of(seq![b]) =~= seq![operator_token(b)],
{
    let s = seq![b];
    assert(s.len() == 1 && s[0] == b);
    assert(s.skip(1) =~= Seq::<u8>::empty());
    assert(tokens_of(s.skip(1)) == Seq::<Token>::empty());
    assert(tokens_of(s) == seq![operator_token(b)] + tokens_of(s.skip(1)));
}

/// An unrecognized byte ends the scan: no token is emitted for it or for
/// anything that follows it.
pub proof fn lemma_unrecognized_halts(s: Seq<u8>)
    requires
        s.len() > 0,
        !is_recognized_byte(s[0]),
    ensures
        tokens_of(s) =~= Seq::<Token>::empty(),
{
}

/// Whitespace-only input yields an empty token sequence.
pub proof fn lemma_whitespace_only(s: Seq<u8>)
    requires
        forall|i: int| 0 <= i < s.len() ==> is_whitespace_byte(s[i]),
    ensures
        tokens_of(s) =~= Seq::<Token>::empty(),
    decreases s.len(),
{
    if s.len() > 0 {
        assert forall|i: int| 0 <= i < s.skip(1).len() implies is_whitespace_byte(
            s.skip(1)[i],
        ) by {
            assert(s.skip(1)[i] == s[i + 1]);
        }
        lemma_whitespace_only(s.skip(1));
    }
}

/// Leading whitespace is transparent: it never changes the scan's output.
pub proof fn lemma_whitespace_prefix(w: Seq<u8>, s: Seq<u8>)
    requires
        forall|i: int| 0 <= i < w.len() ==> is_whitespace_byte(w[i]),
    ensures
        tokens_of(w + s) == tokens_of(s),
    decreases w.len(),
{
    if w.len() == 0 {
        assert(w + s =~= s);
    } else {
        assert((w + s)[0] == w[0]);
        assert((w + s).skip(1) =~= w.skip(1) + s);
        assert forall|i: int| 0 <= i < w.skip(1).len() implies is_whitespace_byte(
            w.skip(1)[i],
        ) by {
            assert(w.skip(1)[i] == w[i + 1]);
        }
        lemma_whitespace_prefix(w.skip(1), s);
    }
}

/// Idempotence of whitespace: replacing one nonempty whitespace separator
/// between two parts of the input by any other nonempty whitespace separator
/// never changes the emitted token sequence. In particular, inserting extra
/// whitespace beside existing whitespace changes nothing.
pub proof fn lemma_whitespace_insertion(a: Seq<u8>, w1: Seq<u8>, w2: Seq<u8>, b: Seq<u8>)
    requires
        w1.len() > 0,
        forall|i: int| 0 <= i < w1.len() ==> is_whitespace_byte(w1[i]),
        w2.len() > 0,
        forall|i: int| 0 <= i < w2.len() ==> is_whitespace_byte(w2[i]),
    ensures
        tokens_of(a + w1 + b) == tokens_of(a + w2 + b),
    decreases a.len(), 0int,
{
    if a.len() == 0 {
        assert(a + w1 + b =~= w1 + b);
        assert(a + w2 + b =~= w2 + b);
        lemma_whitespace_prefix(w1, b);
        lemma_whitespace_prefix(w2, b);
    } else {
        assert((a + w1 + b)[0] == a[0]);
        assert((a + w2 + b)[0] == a[0]);
        assert((a + w1 + b).skip(1) =~= a.skip(1) + w1 + b);
        assert((a + w2 + b).skip(1) =~= a.skip(1) + w2 + b);
        if is_whitespace_byte(a[0]) || is_operator_byte(a[0]) {
            lemma_whitespace_insertion(a.skip(1), w1, w2, b);
        } else if is_identifier_byte(a[0]) {
            lemma_whitespace_insertion_after_identifier(a.skip(1), w1, w2, b);
        } else if is_digit_byte(a[0]) {
            lemma_whitespace_insertion_after_number(a.skip(1), w1, w2, b);
        } else {
            // Both scans halt at the same unrecognized byte.
        }
    }
}

/// The companion of `lemma_whitespace_insertion` for an identifier run in
/// progress.
proof fn lemma_whitespace_insertion_after_identifier(
    a: Seq<u8>,
    w1: Seq<u8>,
    w2: Seq<u8>,
    b: Seq<u8>,
)
    requires
        w1.len() > 0,
        forall|i: int| 0 <= i < w1.len() ==> is_whitespace_byte(w1[i]),
        w2.len() > 0,
        forall|i: int| 0 <= i < w2.len() ==> is_whitespace_byte(w2[i]),
    ensures
        tokens_after_identifier(a + w1 + b) == tokens_after_identifier(a + w2 + b),
    decreases a.len(), 1int,
{
    if a.len() == 0 {
        assert(a + w1 + b =~= w1 + b);
        assert(a + w2 + b =~= w2 + b);
        // The run ends at the whitespace; both sides fall back to a full scan.
        assert((w1 + b)[0] == w1[0]);
        assert((w2 + b)[0] == w2[0]);
        lemma_whitespace_prefix(w1, b);
        lemma_whitespace_prefix(w2, b);
    } else if is_identifier_byte(a[0]) {
        assert((a + w1 + b)[0] == a[0]);
        assert((a + w2 + b)[0] == a[0]);
        assert((a + w1 + b).skip(1) =~= a.skip(1) + w1 + b);
        assert((a + w2 + b).skip(1) =~= a.skip(1) + w2 + b);
        lemma_whitespace_insertion_after_identifier(a.skip(1), w1, w2, b);
    } else {
        assert((a + w1 + b)[0] == a[0]);
        assert((a + w2 + b)[0] == a[0]);
        lemma_whitespace_insertion(a, w1, w2, b);
    }
}

/// The companion of `lemma_whitespace_insertion` for a number run in
/// progress.
proof fn lemma_whitespace_insertion_after_number(a: Seq<u8>, w1: Seq<u8>, w2: Seq<u8>, b: Seq<u8>)
    requires
        w1.len() > 0,
        forall|i: int| 0 <= i < w1.len() ==> is_whitespace_byte(w1[i]),
        w2.len() > 0,
        forall|i: int| 0 <= i < w2.len() ==> is_whitespace_byte(w2[i]),
    ensures
        tokens_after_number(a + w1 + b) == tokens_after_number(a + w2 + b),
    decreases a.len(), 1int,
{
    if a.len() == 0 {
        assert(a + w1 + b =~= w1 + b);
        assert(a + w2 + b =~= w2 + b);
        assert((w1 + b)[0] == w1[0]);
        assert((w2 + b)[0] == w2[0]);
        lemma_whitespace_prefix(w1, b);
        lemma_whitespace_prefix(w2, b);
    } else if is_digit_byte(a[0]) {
        assert((a + w1 + b)[0] == a[0]);
        assert((a + w2 + b)[0] == a[0]);
        assert((a + w1 + b).skip(1) =~= a.skip(1) + w1 + b);
        assert((a + w2 + b).skip(1) =~= a.skip(1) + w2 + b);
        lemma_whitespace_insertion_after_number(a.skip(1), w1, w2, b);
    } else {
        assert((a + w1 + b)[0] == a[0]);
        assert((a + w2 + b)[0] == a[0]);
        lemma_whitespace_insertion(a, w1, w2, b);
    }
}

} // verus!
