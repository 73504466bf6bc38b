//! SQL literals for text and blob values, as a dump of the database writes
//! them in its INSERT statements.
use vstd::prelude::*;

verus! {

/// The single-quote character.
pub const QUOTE: u8 = 39;

/// The bytes of `s` with each single quote doubled.
pub open spec fn escape_quotes(s: Seq<u8>) -> Seq<u8>
    decreases s.len(),
{
    if s.len() == 0 {
        Seq::empty()
    } else {
        let first = if s[0] == QUOTE {
            seq![QUOTE, QUOTE]
        } else {
            seq![s[0]]
        };
        first + escape_quotes(s.drop_first())
    }
}

/// Text as an SQL string literal: in single quotes, each quote inside doubled.
pub open spec fn text_literal(s: Seq<u8>) -> Seq<u8> {
    seq![QUOTE] + escape_quotes(s) + seq![QUOTE]
}

/// The lower-case hexadecimal digit of `n`, below 16.
pub open spec fn hex_digit(n: nat) -> u8 {
    if n < 10 {
        (48 + n) as u8
    } else {
        (87 + n) as u8
    }
}

/// Each byte of `b` as two lower-case hexadecimal digits.
pub open spec fn hex_digits(b: Seq<u8>) -> Seq<u8>
    decreases b.len(),
{
    if b.len() == 0 {
        Seq::empty()
    } else {
        seq![hex_digit(b[0] as nat / 16), hex_digit(b[0] as nat % 16)] + hex_digits(b.drop_first())
    }
}

/// A blob as an SQL blob literal: `X'` and its bytes in hexadecimal, then `'`.
pub open spec fn blob_literal(b: Seq<u8>) -> Seq<u8> {
    seq![88u8, QUOTE] + hex_digits(b) + seq![QUOTE]
}

proof fn lemma_escape_quotes_push(s: Seq<u8>, c: u8)
    ensures
        escape_quotes(s.push(c)) == escape_quotes(s) + (if c == QUOTE {
            seq![QUOTE, QUOTE]
        } else {
            seq![c]
        }),
    decreases s.len(),
{
    let tail = if c == QUOTE {
        seq![QUOTE, QUOTE]
    } else {
        seq![c]
    };
    assert(s.push(c)[0] == if s.len() == 0 {
        c
    } else {
        s[0]
    });
    if s.len() == 0 {
        assert(s.push(c).drop_first() =~= Seq::<u8>::empty());
        assert(escape_quotes(Seq::<u8>::empty()) == Seq::<u8>::empty());
        assert(escape_quotes(s.push(c)) =~= tail);
    } else {
        lemma_escape_quotes_push(s.drop_first(), c);
        assert(s.push(c).drop_first() =~= s.drop_first().push(c));
        assert(escape_quotes(s.push(c)) =~= escape_quotes(s) + tail);
    }
}

proof fn lemma_hex_digits_push(b: Seq<u8>, c: u8)
    ensures
        hex_digits(b.push(c)) == hex_digits(b) + seq![
            hex_digit(c as nat / 16),
            hex_digit(c as nat % 16),
        ],
    decreases b.len(),
{
    let tail = seq![hex_digit(c as nat / 16), hex_digit(c as nat % 16)];
    if b.len() == 0 {
        assert(b.push(c).drop_first() =~= Seq::<u8>::empty());
        assert(b.push(c)[0] == c);
        assert(hex_digits(Seq::<u8>::empty()) == Seq::<u8>::empty());
        assert(hex_digits(b.push(c)) =~= tail);
    } else {
        lemma_hex_digits_push(b.drop_first(), c);
        assert(b.push(c).drop_first() =~= b.drop_first().push(c));
        assert(b.push(c)[0] == b[0]);
        assert(hex_digits(b.push(c)) =~= hex_digits(b) + tail);
    }
}

/// The hexadecimal digit of `n`.
fn hex_digit_exec(n: u8) -> (r: u8)
    requires
        n < 16,
    ensures
        r == hex_digit(n as nat),
{
    if n < 10 {
        48 + n
    } else {
        87 + n
    }
}

/// `text` as an SQL string literal.
pub fn sql_text_literal(text: &[u8]) -> (r: Vec<u8>)
    ensures
        r@ == text_literal(text@),
{
    let mut out: Vec<u8> = Vec::new();
    out.push(QUOTE);
    let mut i: usize = 0;
    while i < text.len()
        invariant
            i <= text@.len(),
            out@ == seq![QUOTE] + escape_quotes(text@.subrange(0, i as int)),
        decreases text@.len() - i,
    {
        let c = text[i];
        proof {
            lemma_escape_quotes_push(text@.subrange(0, i as int), c);
            assert(text@.subrange(0, i + 1) =~= text@.subrange(0, i as int).push(c));
        }
        if c == QUOTE {
            out.push(QUOTE);
            out.push(QUOTE);
        } else {
            out.push(c);
        }
        i += 1;
        assert(out@ =~= seq![QUOTE] + escape_quotes(text@.subrange(0, i as int)));
    }
    out.push(QUOTE);
    assert(text@.subrange(0, text@.len() as int) =~= text@);
    assert(out@ =~= text_literal(text@));
    out
}

/// `blob` as an SQL blob literal.
pub fn sql_blob_literal(blob: &[u8]) -> (r: Vec<u8>)
    ensures
        r@ == blob_literal(blob@),
{
    let mut out: Vec<u8> = Vec::new();
    out.push(88);
    out.push(QUOTE);
    let mut i: usize = 0;
    while i < blob.len()
        invariant
            i <= blob@.len(),
            out@ == seq![88u8, QUOTE] + hex_digits(blob@.subrange(0, i as int)),
        decreases blob@.len() - i,
    {
        let c = blob[i];
        proof {
            lemma_hex_digits_push(blob@.subrange(0, i as int), c);
            assert(blob@.subrange(0, i + 1) =~= blob@.subrange(0, i as int).push(c));
        }
        out.push(hex_digit_exec(c / 16));
        out.push(hex_digit_exec(c % 16));
        i += 1;
        assert(out@ =~= seq![88u8, QUOTE] + hex_digits(blob@.subrange(0, i as int)));
    }
    out.push(QUOTE);
    assert(blob@.subrange(0, blob@.len() as int) =~= blob@);
    assert(out@ =~= blob_literal(blob@));
    out
}

} // verus!
