//! Building blocks of the JSON text the library writes and reads: quoted
//! strings with escaping, decimal numbers, and fixed pieces of text, each
//! with an encoder, a parser, and the proof that parsing what was encoded
//! gives back what was encoded.
//!
//! Text is modelled as a sequence of characters. Parsers consume from the
//! front and hand back the rest of the input.

use vstd::prelude::*;

verus! {

use vstd::string::StrSliceExecFns;

// --- decimal numbers ---

/// Whether the character is a decimal digit.
pub open spec fn is_digit(c: char) -> bool {
    48 <= c as u32 && c as u32 <= 57
}

/// The numeric value of a digit character.
pub open spec fn digit_val(c: char) -> nat {
    (c as u32 - 48) as nat
}

/// The character for a digit value below ten.
pub open spec fn digit_char(d: nat) -> char {
    if d == 0 {
        '0'
    } else if d == 1 {
        '1'
    } else if d == 2 {
        '2'
    } else if d == 3 {
        '3'
    } else if d == 4 {
        '4'
    } else if d == 5 {
        '5'
    } else if d == 6 {
        '6'
    } else if d == 7 {
        '7'
    } else if d == 8 {
        '8'
    } else {
        '9'
    }
}

/// The decimal digits of a number, most significant first.
pub open spec fn dec_digits(n: nat) -> Seq<char>
    decreases n,
{
    if n < 10 {
        seq![digit_char(n)]
    } else {
        dec_digits(n / 10).push(digit_char(n % 10))
    }
}

/// Powers of ten.
pub open spec fn pow10(k: nat) -> nat
    decreases k,
{
    if k == 0 {
        1
    } else {
        10 * pow10((k - 1) as nat)
    }
}

/// The value of a run of digit characters, appended to an accumulator.
pub open spec fn val_digits(acc: nat, d: Seq<char>) -> nat
    decreases d.len(),
{
    if d.len() == 0 {
        acc
    } else {
        val_digits(acc * 10 + digit_val(d[0]), d.drop_first())
    }
}

/// Consume the leading run of digits, folding them onto the accumulator.
pub open spec fn parse_digits(s: Seq<char>, acc: nat) -> (nat, Seq<char>)
    decreases s.len(),
{
    if s.len() > 0 && is_digit(s[0]) {
        parse_digits(s.drop_first(), acc * 10 + digit_val(s[0]))
    } else {
        (acc, s)
    }
}

/// Parse a decimal number: at least one digit, maximal run.
pub open spec fn parse_nat(s: Seq<char>) -> Option<(nat, Seq<char>)> {
    if s.len() > 0 && is_digit(s[0]) {
        Some(parse_digits(s, 0))
    } else {
        None
    }
}

/// Every character a number prints to is a digit, and there is at least one.
pub proof fn lemma_dec_digits_are_digits(n: nat)
    ensures
        dec_digits(n).len() >= 1,
        forall|i: int| 0 <= i < dec_digits(n).len() ==> is_digit(#[trigger] dec_digits(n)[i]),
    decreases n,
{
    if n < 10 {
    } else {
        lemma_dec_digits_are_digits(n / 10);
    }
}

/// Folding one more digit multiplies the run's value by ten and adds it.
pub proof fn lemma_val_digits_push(acc: nat, d: Seq<char>, c: char)
    ensures
        val_digits(acc, d.push(c)) == val_digits(acc, d) * 10 + digit_val(c),
    decreases d.len(),
{
    if d.len() == 0 {
        assert(d.push(c)[0] == c);
        assert(d.push(c).drop_first() =~= Seq::<char>::empty());
        assert(val_digits(acc, d.push(c)) == val_digits(acc * 10 + digit_val(c), Seq::empty()));
    } else {
        assert(d.push(c)[0] == d[0]);
        assert(d.push(c).drop_first() =~= d.drop_first().push(c));
        lemma_val_digits_push(acc * 10 + digit_val(d[0]), d.drop_first(), c);
    }
}

/// The value of a printed number, read back onto an accumulator.
pub proof fn lemma_val_digits_dec(acc: nat, n: nat)
    ensures
        val_digits(acc, dec_digits(n)) == acc * pow10(dec_digits(n).len()) + n,
    decreases n,
{
    if n < 10 {
        assert(seq![digit_char(n)][0] == digit_char(n));
        assert(seq![digit_char(n)].drop_first() =~= Seq::<char>::empty());
        assert(digit_val(digit_char(n)) == n);
        assert(val_digits(acc, dec_digits(n)) == val_digits(
            acc * 10 + digit_val(digit_char(n)),
            Seq::empty(),
        ));
        assert(val_digits(acc, dec_digits(n)) == acc * 10 + n);
        assert(pow10(0) == 1);
        assert(pow10(1) == 10);
    } else {
        let d = dec_digits(n / 10);
        lemma_val_digits_dec(acc, n / 10);
        lemma_val_digits_push(acc, d, digit_char(n % 10));
        assert(digit_val(digit_char(n % 10)) == n % 10);
        assert(val_digits(acc, dec_digits(n)) == (acc * pow10(d.len()) + n / 10) * 10 + n % 10);
        assert(dec_digits(n).len() == d.len() + 1);
        assert(pow10(d.len() + 1) == 10 * pow10(d.len()));
        assert((acc * pow10(d.len())) * 10 == acc * (10 * pow10(d.len()))) by (nonlinear_arith);
        assert((n / 10) * 10 + n % 10 == n) by {
            vstd::arithmetic::div_mod::lemma_fundamental_div_mod(n as int, 10);
        }
    }
}

/// A run of digits followed by anything that does not begin with a digit
/// parses to the run's value, leaving that remainder.
pub proof fn lemma_parse_digits_concat(d: Seq<char>, rest: Seq<char>, acc: nat)
    requires
        forall|i: int| 0 <= i < d.len() ==> is_digit(#[trigger] d[i]),
        rest.len() == 0 || !is_digit(rest[0]),
    ensures
        parse_digits(d + rest, acc) == (val_digits(acc, d), rest),
    decreases d.len(),
{
    if d.len() == 0 {
        assert(d + rest =~= rest);
    } else {
        assert((d + rest)[0] == d[0]);
        assert((d + rest).drop_first() =~= d.drop_first() + rest);
        lemma_parse_digits_concat(d.drop_first(), rest, acc * 10 + digit_val(d[0]));
    }
}

/// Round trip for numbers: printing a number and parsing it back gives the
/// number, leaving whatever followed it.
pub proof fn lemma_parse_nat_dec(n: nat, rest: Seq<char>)
    requires
        rest.len() == 0 || !is_digit(rest[0]),
    ensures
        parse_nat(dec_digits(n) + rest) == Some((n, rest)),
{
    lemma_dec_digits_are_digits(n);
    assert((dec_digits(n) + rest)[0] == dec_digits(n)[0]);
    lemma_parse_digits_concat(dec_digits(n), rest, 0);
    lemma_val_digits_dec(0, n);
    assert(0 * pow10(dec_digits(n).len()) == 0) by (nonlinear_arith);
}

/// The parsed value is at least the accumulator it started from.
pub proof fn lemma_parse_digits_ge(s: Seq<char>, acc: nat)
    ensures
        parse_digits(s, acc).0 >= acc,
    decreases s.len(),
{
    if s.len() > 0 && is_digit(s[0]) {
        lemma_parse_digits_ge(s.drop_first(), acc * 10 + digit_val(s[0]));
    }
}

// --- quoted strings ---

/// How one character is written inside a quoted string: quote, backslash and
/// the common control characters take a two-character escape, anything else
/// stands as itself.
pub open spec fn esc_char(c: char) -> Seq<char> {
    if c == '"' {
        seq!['\\', '"']
    } else if c == '\\' {
        seq!['\\', '\\']
    } else if c == '\n' {
        seq!['\\', 'n']
    } else if c == '\r' {
        seq!['\\', 'r']
    } else if c == '\t' {
        seq!['\\', 't']
    } else {
        seq![c]
    }
}

/// A string's characters, each written as `esc_char` has it.
pub open spec fn esc_str(s: Seq<char>) -> Seq<char>
    decreases s.len(),
{
    if s.len() == 0 {
        Seq::empty()
    } else {
        esc_char(s[0]) + esc_str(s.drop_first())
    }
}

/// A string as it stands in the text: escaped, between double quotes.
pub open spec fn quoted(s: Seq<char>) -> Seq<char> {
    seq!['"'] + esc_str(s) + seq!['"']
}

/// The character an escape letter stands for, if it is one the format knows.
pub open spec fn unesc_char(c: char) -> Option<char> {
    if c == '"' {
        Some('"')
    } else if c == '\\' {
        Some('\\')
    } else if c == 'n' {
        Some('\n')
    } else if c == 'r' {
        Some('\r')
    } else if c == 't' {
        Some('\t')
    } else {
        None
    }
}

/// Parse the body of a quoted string, after the opening quote, up to and
/// including the closing quote; the result is the string's characters and
/// what follows the closing quote.
pub open spec fn parse_str_body(s: Seq<char>) -> Option<(Seq<char>, Seq<char>)>
    decreases s.len(),
{
    if s.len() == 0 {
        None
    } else if s[0] == '"' {
        Some((Seq::empty(), s.drop_first()))
    } else if s[0] == '\\' {
        if s.len() >= 2 {
            match unesc_char(s[1]) {
                Some(c) => match parse_str_body(s.subrange(2, s.len() as int)) {
                    Some(p) => Some((seq![c] + p.0, p.1)),
                    None => None,
                },
                None => None,
            }
        } else {
            None
        }
    } else {
        match parse_str_body(s.drop_first()) {
            Some(p) => Some((seq![s[0]] + p.0, p.1)),
            None => None,
        }
    }
}

/// Parse a quoted string from the opening quote on.
pub open spec fn parse_quoted(s: Seq<char>) -> Option<(Seq<char>, Seq<char>)> {
    if s.len() > 0 && s[0] == '"' {
        parse_str_body(s.drop_first())
    } else {
        None
    }
}

/// Escaping distributes over appending one character.
pub proof fn lemma_esc_str_push(s: Seq<char>, c: char)
    ensures
        esc_str(s.push(c)) == esc_str(s) + esc_char(c),
    decreases s.len(),
{
    if s.len() == 0 {
        assert(s.push(c)[0] == c);
        assert(s.push(c).drop_first() =~= Seq::<char>::empty());
        assert(esc_str(Seq::<char>::empty()) == Seq::<char>::empty());
        assert(esc_str(s.push(c)) == esc_char(c) + Seq::<char>::empty());
        assert(esc_char(c) + Seq::<char>::empty() =~= Seq::<char>::empty() + esc_char(c));
    } else {
        assert(s.push(c)[0] == s[0]);
        assert(s.push(c).drop_first() =~= s.drop_first().push(c));
        lemma_esc_str_push(s.drop_first(), c);
        let a = esc_char(s[0]);
        let b = esc_str(s.drop_first());
        let e = esc_char(c);
        assert(esc_str(s.push(c)) == a + (b + e));
        assert(esc_str(s) == a + b);
        assert(a + (b + e) =~= (a + b) + e);
    }
}

/// The string body parser undoes the escaping: the escaped characters of a
/// string, a closing quote, and anything after parse back to the string and
/// that remainder.
pub proof fn lemma_parse_body_esc(v: Seq<char>, rest: Seq<char>)
    ensures
        parse_str_body(esc_str(v) + seq!['"'] + rest) == Some((v, rest)),
    decreases v.len(),
{
    let s = esc_str(v) + seq!['"'] + rest;
    if v.len() == 0 {
        assert(s[0] == '"');
        assert(s.drop_first() =~= rest);
    } else {
        let c = v[0];
        let tail = esc_str(v.drop_first()) + seq!['"'] + rest;
        lemma_parse_body_esc(v.drop_first(), rest);
        assert(s =~= esc_char(c) + tail);
        if c == '"' || c == '\\' || c == '\n' || c == '\r' || c == '\t' {
            assert(s[0] == '\\');
            assert(unesc_char(s[1]) == Some(c));
            assert(s.subrange(2, s.len() as int) =~= tail);
            assert(seq![c] + v.drop_first() =~= v);
        } else {
            assert(s[0] == c);
            assert(s[0] != '"' && s[0] != '\\');
            assert(s.drop_first() =~= tail);
            assert(seq![c] + v.drop_first() =~= v);
        }
    }
}

/// Round trip for strings: a quoted string followed by anything parses back
/// to the string and that remainder.
pub proof fn lemma_parse_quoted_quoted(v: Seq<char>, rest: Seq<char>)
    ensures
        parse_quoted(quoted(v) + rest) == Some((v, rest)),
{
    let s = quoted(v) + rest;
    assert(s[0] == '"');
    assert(s.drop_first() =~= esc_str(v) + seq!['"'] + rest);
    lemma_parse_body_esc(v, rest);
}

/// A successful string body parse consumes at least the closing quote.
pub proof fn lemma_parse_str_body_shrinks(s: Seq<char>)
    ensures
        parse_str_body(s) matches Some(p) ==> p.1.len() < s.len(),
    decreases s.len(),
{
    if s.len() == 0 {
    } else if s[0] == '"' {
    } else if s[0] == '\\' {
        if s.len() >= 2 {
            lemma_parse_str_body_shrinks(s.subrange(2, s.len() as int));
        }
    } else {
        lemma_parse_str_body_shrinks(s.drop_first());
    }
}

/// A successful quoted-string parse consumes at least the two quotes.
pub proof fn lemma_parse_quoted_shrinks(s: Seq<char>)
    ensures
        parse_quoted(s) matches Some(p) ==> p.1.len() + 2 <= s.len(),
{
    if s.len() > 0 && s[0] == '"' {
        lemma_parse_str_body_shrinks(s.drop_first());
    }
}

// --- fixed pieces of text ---

/// Consume a fixed piece of text from the front of the input.
pub open spec fn parse_lit(s: Seq<char>, lit: Seq<char>) -> Option<Seq<char>> {
    if lit.len() <= s.len() && s.subrange(0, lit.len() as int) == lit {
        Some(s.subrange(lit.len() as int, s.len() as int))
    } else {
        None
    }
}

/// A fixed piece of text followed by anything parses to that remainder.
pub proof fn lemma_parse_lit_concat(lit: Seq<char>, rest: Seq<char>)
    ensures
        parse_lit(lit + rest, lit) == Some(rest),
{
    let s = lit + rest;
    assert(s.subrange(0, lit.len() as int) =~= lit);
    assert(s.subrange(lit.len() as int, s.len() as int) =~= rest);
}

// --- executable text handling ---

/// The input from a position on.
pub open spec fn suffix(s: Seq<char>, i: int) -> Seq<char> {
    s.subrange(i, s.len() as int)
}

/// The characters of a string slice, as a vector.
pub fn chars_vec(s: &str) -> (r: Vec<char>)
    ensures
        r@ == s@,
{
    let n = s.unicode_len();
    let mut r: Vec<char> = Vec::new();
    let mut i: usize = 0;
    while i < n
        invariant
            n == s@.len(),
            i <= n,
            r@ == s@.subrange(0, i as int),
        decreases n - i,
    {
        r.push(s.get_char(i));
        proof {
            assert(r@ =~= s@.subrange(0, i + 1 as int));
        }
        i = i + 1;
    }
    proof {
        assert(r@ =~= s@);
    }
    r
}

/// Relies on String's FromIterator impl, through Iterator::collect: the
/// string collected from an iterator over characters holds exactly those
/// characters, in order.
#[verifier::external_body]
pub fn string_from_chars(chars: &Vec<char>) -> (r: String)
    ensures
        r@ == chars@,
{
    chars.iter().collect()
}

/// Append a fixed piece of text to the output.
pub fn push_str_chars(out: &mut Vec<char>, lit: &str)
    ensures
        final(out)@ == old(out)@ + lit@,
{
    let ghost out0 = out@;
    let n = lit.unicode_len();
    let mut i: usize = 0;
    while i < n
        invariant
            n == lit@.len(),
            i <= n,
            out@ == out0 + lit@.subrange(0, i as int),
        decreases n - i,
    {
        out.push(lit.get_char(i));
        proof {
            assert(out@ =~= out0 + lit@.subrange(0, i + 1 as int));
        }
        i = i + 1;
    }
    proof {
        assert(lit@.subrange(0, lit@.len() as int) =~= lit@);
    }
}

/// Append a string to the output as the text format writes it: escaped,
/// between double quotes.
pub fn push_quoted(out: &mut Vec<char>, s: &str)
    ensures
        final(out)@ == old(out)@ + quoted(s@),
{
    let ghost out0 = out@;
    let cs = chars_vec(s);
    out.push('"');
    let n = cs.len();
    let mut i: usize = 0;
    while i < n
        invariant
            n == cs@.len(),
            cs@ == s@,
            i <= n,
            out@ == out0 + seq!['"'] + esc_str(s@.subrange(0, i as int)),
        decreases n - i,
    {
        let ghost pre = s@.subrange(0, i as int);
        let c = cs[i];
        if c == '"' {
            out.push('\\');
            out.push('"');
        } else if c == '\\' {
            out.push('\\');
            out.push('\\');
        } else if c == '\n' {
            out.push('\\');
            out.push('n');
        } else if c == '\r' {
            out.push('\\');
            out.push('r');
        } else if c == '\t' {
            out.push('\\');
            out.push('t');
        } else {
            out.push(c);
        }
        proof {
            lemma_esc_str_push(pre, c);
            assert(pre.push(c) =~= s@.subrange(0, i + 1 as int));
            assert(out@ =~= out0 + seq!['"'] + esc_str(s@.subrange(0, i + 1 as int)));
        }
        i = i + 1;
    }
    out.push('"');
    proof {
        assert(s@.subrange(0, s@.len() as int) =~= s@);
        assert(out@ =~= out0 + quoted(s@));
    }
}

/// The character for a digit value below ten.
fn digit_char_exec(d: u64) -> (c: char)
    requires
        d < 10,
    ensures
        c == digit_char(d as nat),
{
    if d == 0 {
        '0'
    } else if d == 1 {
        '1'
    } else if d == 2 {
        '2'
    } else if d == 3 {
        '3'
    } else if d == 4 {
        '4'
    } else if d == 5 {
        '5'
    } else if d == 6 {
        '6'
    } else if d == 7 {
        '7'
    } else if d == 8 {
        '8'
    } else {
        '9'
    }
}

/// Append a number to the output in decimal.
pub fn push_dec_u64(out: &mut Vec<char>, n: u64)
    ensures
        final(out)@ == old(out)@ + dec_digits(n as nat),
    decreases n,
{
    if n < 10 {
        out.push(digit_char_exec(n));
        proof {
            assert(old(out)@.push(digit_char(n as nat)) =~= old(out)@ + dec_digits(n as nat));
        }
    } else {
        push_dec_u64(out, n / 10);
        out.push(digit_char_exec(n % 10));
        proof {
            assert(old(out)@ + dec_digits((n / 10) as nat) + seq![digit_char((n % 10) as nat)]
                =~= old(out)@ + dec_digits(n as nat));
        }
    }
}

/// Whether the character is a decimal digit.
fn is_digit_exec(c: char) -> (b: bool)
    ensures
        b == is_digit(c),
{
    let u = c as u32;
    48 <= u && u <= 57
}

/// Consume a fixed piece of text at the given position, handing back the
/// position after it; `None` where the input does not carry that text there.
pub fn expect_str(s: &Vec<char>, pos: usize, lit: &str) -> (r: Option<usize>)
    requires
        pos <= s@.len(),
    ensures
        match r {
            Some(j) => pos <= j <= s@.len() && parse_lit(suffix(s@, pos as int), lit@) == Some(
                suffix(s@, j as int),
            ),
            None => parse_lit(suffix(s@, pos as int), lit@) is None,
        },
{
    let ghost su = suffix(s@, pos as int);
    let n = lit.unicode_len();
    let sl = s.len();
    if n > sl - pos {
        return None;
    }
    let mut i: usize = 0;
    while i < n
        invariant
            n == lit@.len(),
            i <= n,
            sl == s@.len(),
            pos + n <= sl,
            su == suffix(s@, pos as int),
            forall|j: int| 0 <= j < i ==> su[j] == lit@[j],
        decreases n - i,
    {
        if s[pos + i] != lit.get_char(i) {
            proof {
                assert(su[i as int] != lit@[i as int]);
                assert(su.subrange(0, lit@.len() as int)[i as int] != lit@[i as int]);
            }
            return None;
        }
        i = i + 1;
    }
    proof {
        assert(su.subrange(0, lit@.len() as int) =~= lit@);
        assert(su.subrange(lit@.len() as int, su.len() as int) =~= suffix(
            s@,
            pos + lit@.len(),
        ));
    }
    Some(pos + n)
}

/// Parse the body of a quoted string at the given position, after the opening
/// quote, handing back its characters and the position after the closing
/// quote.
fn parse_str_body_exec(s: &Vec<char>, pos: usize) -> (r: Option<(Vec<char>, usize)>)
    requires
        pos <= s@.len(),
    ensures
        match r {
            Some(p) => pos < p.1 <= s@.len() && parse_str_body(suffix(s@, pos as int)) == Some(
                (p.0@, suffix(s@, p.1 as int)),
            ),
            None => parse_str_body(suffix(s@, pos as int)) is None,
        },
    decreases s@.len() - pos,
{
    let ghost su = suffix(s@, pos as int);
    if pos == s.len() {
        return None;
    }
    let c = s[pos];
    proof {
        assert(su[0] == c);
    }
    if c == '"' {
        proof {
            assert(su.drop_first() =~= suffix(s@, pos + 1));
        }
        Some((Vec::new(), pos + 1))
    } else if c == '\\' {
        if pos + 1 == s.len() {
            return None;
        }
        let e = s[pos + 1];
        proof {
            assert(su[1] == e);
        }
        let u: char = if e == '"' {
            '"'
        } else if e == '\\' {
            '\\'
        } else if e == 'n' {
            '\n'
        } else if e == 'r' {
            '\r'
        } else if e == 't' {
            '\t'
        } else {
            proof {
                assert(unesc_char(e) is None);
            }
            return None;
        };
        proof {
            assert(unesc_char(e) == Some(u));
            assert(su.subrange(2, su.len() as int) =~= suffix(s@, pos + 2));
        }
        match parse_str_body_exec(s, pos + 2) {
            Some((mut v, j)) => {
                let ghost v0 = v@;
                v.insert(0, u);
                proof {
                    assert(v@ =~= seq![u] + v0);
                }
                Some((v, j))
            }
            None => None,
        }
    } else {
        proof {
            assert(su.drop_first() =~= suffix(s@, pos + 1));
        }
        match parse_str_body_exec(s, pos + 1) {
            Some((mut v, j)) => {
                let ghost v0 = v@;
                v.insert(0, c);
                proof {
                    assert(v@ =~= seq![c] + v0);
                }
                Some((v, j))
            }
            None => None,
        }
    }
}

/// Parse a quoted string at the given position, handing back its characters
/// and the position after the closing quote.
pub fn parse_quoted_exec(s: &Vec<char>, pos: usize) -> (r: Option<(Vec<char>, usize)>)
    requires
        pos <= s@.len(),
    ensures
        match r {
            Some(p) => pos < p.1 <= s@.len() && parse_quoted(suffix(s@, pos as int)) == Some(
                (p.0@, suffix(s@, p.1 as int)),
            ),
            None => parse_quoted(suffix(s@, pos as int)) is None,
        },
{
    let ghost su = suffix(s@, pos as int);
    if pos == s.len() {
        return None;
    }
    if s[pos] != '"' {
        proof {
            assert(su[0] != '"');
        }
        return None;
    }
    proof {
        assert(su[0] == '"');
        assert(su.drop_first() =~= suffix(s@, pos + 1));
    }
    parse_str_body_exec(s, pos + 1)
}

/// Parse a decimal number at the given position: at least one digit, maximal
/// run, `None` where there is no digit or the value does not fit in 64 bits.
pub fn parse_u64_exec(s: &Vec<char>, pos: usize) -> (r: Option<(u64, usize)>)
    requires
        pos <= s@.len(),
    ensures
        match r {
            Some(p) => {
                &&& pos < p.1 <= s@.len()
                &&& parse_nat(suffix(s@, pos as int)) matches Some(q) && q.0 == p.0 as nat
                    && q.1 == suffix(s@, p.1 as int)
            },
            None => match parse_nat(suffix(s@, pos as int)) {
                Some(q) => q.0 > u64::MAX,
                None => true,
            },
        },
        r is None ==> (parse_nat(suffix(s@, pos as int)) matches Some(q) ==> q.0 > u64::MAX),
{
    let ghost su = suffix(s@, pos as int);
    if pos == s.len() {
        return None;
    }
    let c0 = s[pos];
    proof {
        assert(su[0] == c0);
    }
    if !is_digit_exec(c0) {
        return None;
    }
    let d0: u64 = (c0 as u32 - 48) as u64;
    proof {
        assert(su.drop_first() =~= suffix(s@, pos + 1));
        assert(0nat * 10 + digit_val(c0) == d0 as nat);
    }
    let mut acc: u64 = d0;
    let mut i: usize = pos + 1;
    while i < s.len() && is_digit_exec(s[i])
        invariant
            pos < i <= s@.len(),
            su == suffix(s@, pos as int),
            su.len() > 0 && is_digit(su[0]),
            parse_digits(su, 0) == parse_digits(suffix(s@, i as int), acc as nat),
        decreases s@.len() - i,
    {
        let c = s[i];
        let d: u64 = (c as u32 - 48) as u64;
        proof {
            assert(suffix(s@, i as int)[0] == c);
            assert(suffix(s@, i as int).drop_first() =~= suffix(s@, i + 1));
        }
        if acc > (u64::MAX - d) / 10 {
            proof {
                vstd::arithmetic::div_mod::lemma_fundamental_div_mod(
                    (u64::MAX - d) as int,
                    10,
                );
                assert(acc as nat * 10 + d as nat > u64::MAX);
                lemma_parse_digits_ge(suffix(s@, i + 1), acc as nat * 10 + d as nat);
                assert(parse_digits(su, 0).0 > u64::MAX);
            }
            return None;
        }
        proof {
            vstd::arithmetic::div_mod::lemma_fundamental_div_mod((u64::MAX - d) as int, 10);
            assert(acc as nat * 10 + d as nat <= u64::MAX);
        }
        acc = acc * 10 + d;
        i = i + 1;
    }
    proof {
        assert(parse_digits(suffix(s@, i as int), acc as nat) == (acc as nat, suffix(s@, i as int)));
    }
    Some((acc, i))
}

} // verus!
