//! Dotted-decimal IPv4 text: four fields separated by single periods, each
//! one to three ASCII digits whose value is at most 255.

use vstd::prelude::*;

verus! {

/// The byte of the digit `0`.
const ASCII_ZERO: u8 = 48;

/// The byte of the digit `9`.
const ASCII_NINE: u8 = 57;

/// The byte of the period.
const ASCII_PERIOD: u8 = 46;

/// Whether `c` is one of the ASCII decimal digits `0` to `9`.
pub open spec fn is_digit(c: char) -> bool {
    '0' <= c && c <= '9'
}

/// The numeric value of an ASCII decimal digit.
pub open spec fn digit_value(c: char) -> int {
    (c as int) - ('0' as int)
}

/// Whether every character of `t` is an ASCII decimal digit.
pub open spec fn all_digits(t: Seq<char>) -> bool {
    forall|j: int| 0 <= j < t.len() ==> is_digit(#[trigger] t[j])
}

/// The base-10 value of a run of digits, most significant first.
pub open spec fn digits_value(t: Seq<char>) -> int
    decreases t.len(),
{
    if t.len() == 0 {
        0
    } else {
        digits_value(t.drop_last()) * 10 + digit_value(t.last())
    }
}

/// The pieces of `s` between its periods, in order: one more piece than
/// there are periods, empty pieces included.
pub open spec fn fields(s: Seq<char>) -> Seq<Seq<char>>
    decreases s.len(),
{
    if s.len() == 0 {
        seq![Seq::empty()]
    } else {
        let front = fields(s.drop_last());
        if s.last() == '.' {
            front.push(Seq::empty())
        } else {
            front.update(front.len() - 1, front.last().push(s.last()))
        }
    }
}

/// A field that names one octet: one to three digits, at most 255.
pub open spec fn is_octet_field(t: Seq<char>) -> bool {
    &&& 1 <= t.len() <= 3
    &&& all_digits(t)
    &&& digits_value(t) <= 255
}

/// Whether the whole of `s` is dotted-decimal IPv4 text.
pub open spec fn is_ipv4_literal(s: Seq<char>) -> bool {
    &&& fields(s).len() == 4
    &&& forall|k: int| 0 <= k < 4 ==> is_octet_field(#[trigger] fields(s)[k])
}

/// The four octets that dotted-decimal text `s` denotes, in order.
pub open spec fn literal_octets(s: Seq<char>) -> Seq<u8> {
    Seq::new(4, |k: int| digits_value(fields(s)[k]) as u8)
}

/// `fields` always yields at least one piece.
pub proof fn lemma_fields_nonempty(s: Seq<char>)
    ensures
        fields(s).len() >= 1,
    decreases s.len(),
{
    if s.len() > 0 {
        lemma_fields_nonempty(s.drop_last());
    }
}

/// Splitting a concatenation: the last piece of `x` and the first piece of
/// `y` join into one; the other pieces are kept.
pub proof fn lemma_fields_concat(x: Seq<char>, y: Seq<char>)
    ensures
        fields(x + y) == fields(x).drop_last() + seq![fields(x).last() + fields(y)[0]]
            + fields(y).drop_first(),
    decreases y.len(),
{
    lemma_fields_nonempty(x);
    if y.len() == 0 {
        assert(x + y =~= x);
        assert(fields(x).last() + fields(y)[0] =~= fields(x).last());
        assert(fields(x) =~= fields(x).drop_last() + seq![fields(x).last()]);
        assert(fields(y).drop_first() =~= Seq::<Seq<char>>::empty());
        assert(fields(x).drop_last() + seq![fields(x).last() + fields(y)[0]]
            + fields(y).drop_first() =~= fields(x));
    } else {
        let y0 = y.drop_last();
        let c = y.last();
        lemma_fields_concat(x, y0);
        lemma_fields_nonempty(y0);
        assert((x + y).drop_last() =~= x + y0);
        assert((x + y).last() == c);
        let a = fields(x).drop_last();
        let l = fields(x).last();
        let f0 = fields(y0);
        if c == '.' {
            assert(fields(y)[0] == f0[0]);
            assert(fields(y).drop_first() =~= f0.drop_first().push(Seq::empty()));
            assert(fields(x + y) =~= a + seq![l + fields(y)[0]] + fields(y).drop_first());
        } else if f0.len() == 1 {
            assert(fields(y)[0] =~= f0[0].push(c));
            assert(fields(y).drop_first() =~= Seq::<Seq<char>>::empty());
            assert((l + f0[0]).push(c) =~= l + f0[0].push(c));
            assert(fields(x + y) =~= a + seq![l + fields(y)[0]] + fields(y).drop_first());
        } else {
            assert(fields(y)[0] == f0[0]);
            assert(fields(y).drop_first() =~= f0.drop_first().update(
                f0.len() - 2,
                f0.last().push(c),
            ));
            assert(fields(x + y) =~= a + seq![l + fields(y)[0]] + fields(y).drop_first());
        }
    }
}

/// How the pieces of a prefix of `s` sit among the pieces of `s`: all but
/// the last are pieces of `s` too, and the last begins the piece at its index.
pub proof fn lemma_prefix_fields(s: Seq<char>, i: int)
    requires
        0 <= i <= s.len(),
    ensures
        fields(s).len() >= fields(s.take(i)).len() >= 1,
        forall|k: int|
            0 <= k < fields(s.take(i)).len() - 1 ==> fields(s)[k] == #[trigger] fields(s.take(i))[k],
        fields(s)[fields(s.take(i)).len() - 1].len() >= fields(s.take(i)).last().len(),
        forall|j: int|
            0 <= j < fields(s.take(i)).last().len() ==> fields(s)[fields(s.take(i)).len() - 1][j]
                == #[trigger] fields(s.take(i)).last()[j],
{
    let x = s.take(i);
    let y = s.skip(i);
    assert(s =~= x + y);
    lemma_fields_concat(x, y);
    lemma_fields_nonempty(x);
    lemma_fields_nonempty(y);
    let f = fields(x);
    assert(fields(s)[f.len() - 1] == f.last() + fields(y)[0]);
}

/// Every character of dotted-decimal text is a period or a digit.
pub proof fn lemma_literal_chars(s: Seq<char>)
    requires
        is_ipv4_literal(s),
    ensures
        forall|i: int| 0 <= i < s.len() ==> #[trigger] s[i] == '.' || is_digit(s[i]),
{
    assert forall|i: int| 0 <= i < s.len() implies #[trigger] s[i] == '.' || is_digit(s[i]) by {
        if s[i] != '.' {
            lemma_prefix_fields(s, i + 1);
            lemma_fields_nonempty(s.take(i));
            assert(s.take(i + 1).drop_last() =~= s.take(i));
            let f = fields(s.take(i + 1));
            assert(f.last() == fields(s.take(i)).last().push(s[i]));
            assert(f.last()[f.last().len() - 1] == s[i]);
            assert(is_octet_field(fields(s)[f.len() - 1]));
        }
    }
}

/// A run of digits is a single piece.
pub proof fn lemma_fields_of_digits(t: Seq<char>)
    requires
        all_digits(t),
    ensures
        fields(t) == seq![t],
    decreases t.len(),
{
    if t.len() > 0 {
        let front = t.drop_last();
        assert(all_digits(front)) by {
            assert forall|j: int| 0 <= j < front.len() implies is_digit(#[trigger] front[j]) by {
                assert(front[j] == t[j]);
            }
        }
        lemma_fields_of_digits(front);
        assert(is_digit(t[t.len() - 1]));
        assert(front.push(t.last()) =~= t);
        assert(fields(t) =~= seq![t]);
    } else {
        assert(t =~= Seq::<char>::empty());
    }
}

/// Appending a period starts a new, empty piece.
proof fn lemma_fields_push_period(x: Seq<char>)
    ensures
        fields(x + seq!['.']) == fields(x).push(Seq::empty()),
{
    assert((x + seq!['.']).drop_last() =~= x);
}

/// Appending digits extends the last piece.
proof fn lemma_fields_append_digits(x: Seq<char>, t: Seq<char>)
    requires
        all_digits(t),
    ensures
        fields(x + t) == fields(x).drop_last().push(fields(x).last() + t),
{
    lemma_fields_concat(x, t);
    lemma_fields_of_digits(t);
    assert(seq![t].drop_first() =~= Seq::<Seq<char>>::empty());
    assert(fields(x + t) =~= fields(x).drop_last().push(fields(x).last() + t));
}

/// Four fields joined by single periods.
pub open spec fn dotted_quad(a: Seq<char>, b: Seq<char>, c: Seq<char>, d: Seq<char>) -> Seq<char> {
    a + seq!['.'] + b + seq!['.'] + c + seq!['.'] + d
}

/// Four fields of one to three digits, each of value at most 255, joined
/// by single periods, always form dotted-decimal IPv4 text, and it denotes
/// the four values in order.
pub proof fn lemma_dotted_quad_is_literal(a: Seq<char>, b: Seq<char>, c: Seq<char>, d: Seq<char>)
    requires
        is_octet_field(a),
        is_octet_field(b),
        is_octet_field(c),
        is_octet_field(d),
    ensures
        is_ipv4_literal(dotted_quad(a, b, c, d)),
        literal_octets(dotted_quad(a, b, c, d)) == seq![
            digits_value(a) as u8,
            digits_value(b) as u8,
            digits_value(c) as u8,
            digits_value(d) as u8,
        ],
{
    let e = Seq::<char>::empty();
    lemma_fields_of_digits(a);
    lemma_fields_push_period(a);
    let x1 = a + seq!['.'];
    assert(fields(x1) =~= seq![a, e]);
    lemma_fields_append_digits(x1, b);
    let x2 = x1 + b;
    assert(e + b =~= b);
    assert(fields(x2) =~= seq![a, b]);
    lemma_fields_push_period(x2);
    let x3 = x2 + seq!['.'];
    assert(fields(x3) =~= seq![a, b, e]);
    lemma_fields_append_digits(x3, c);
    let x4 = x3 + c;
    assert(e + c =~= c);
    assert(fields(x4) =~= seq![a, b, c]);
    lemma_fields_push_period(x4);
    let x5 = x4 + seq!['.'];
    assert(fields(x5) =~= seq![a, b, c, e]);
    lemma_fields_append_digits(x5, d);
    let x6 = x5 + d;
    assert(e + d =~= d);
    assert(fields(x6) =~= seq![a, b, c, d]);
    assert(x6 == dotted_quad(a, b, c, d));
    assert(literal_octets(x6) =~= seq![
        digits_value(a) as u8,
        digits_value(b) as u8,
        digits_value(c) as u8,
        digits_value(d) as u8,
    ]);
}

/// Whether the piece `t` breaks the form: it has four or more characters,
/// a character that is not a digit, or a value above 255.
pub open spec fn is_malformed_field(t: Seq<char>) -> bool {
    t.len() >= 4 || !all_digits(t) || digits_value(t) > 255
}

/// A string with other than four period-separated pieces, or with a piece
/// of four or more characters, a non-digit, or a value above 255, is never
/// dotted-decimal IPv4 text.
pub proof fn lemma_malformed_is_not_literal(s: Seq<char>)
    requires
        fields(s).len() != 4 || exists|k: int|
            0 <= k < fields(s).len() && is_malformed_field(#[trigger] fields(s)[k]),
    ensures
        !is_ipv4_literal(s),
{
    if fields(s).len() == 4 {
        let k = choose|k: int| 0 <= k < fields(s).len() && is_malformed_field(#[trigger] fields(s)[k]);
        assert(!is_octet_field(fields(s)[k]));
    }
}

/// The direct numeric parse of dotted-decimal IPv4 text: the four octets
/// when the whole of `input` has that form, `None` for any other string.
pub fn parse_ipv4_literal(input: &str) -> (r: Option<[u8; 4]>)
    ensures
        r is Some <==> is_ipv4_literal(input@),
        r is Some ==> r->0@ == literal_octets(input@),
{
    broadcast use vstd::string::is_ascii_spec_bytes;

    let ghost s = input@;
    if !input.is_ascii() {
        proof {
            if is_ipv4_literal(s) {
                lemma_literal_chars(s);
                assert forall|i: int| 0 <= i < s.len() implies '\0' <= #[trigger] s[i] <= '\u{7f}' by {
                    assert(s[i] == '.' || is_digit(s[i]));
                }
            }
        }
        return None;
    }
    let b = input.as_bytes();
    let n = b.len();
    assert(b@.len() == s.len());
    let mut done: Vec<u8> = Vec::new();
    let mut cur_len: usize = 0;
    let mut cur_val: u32 = 0;
    let mut i: usize = 0;
    proof {
        assert(s.take(0) =~= Seq::<char>::empty());
    }
    while i < n
        invariant
            s == input@,
            n == s.len(),
            b@.len() == n,
            0 <= i <= n,
            forall|j: int| 0 <= j < n ==> #[trigger] b@[j] == s[j] as u8,
            forall|j: int| 0 <= j < n ==> '\0' <= #[trigger] s[j] <= '\u{7f}',
            fields(s.take(i as int)).len() == done@.len() + 1,
            done@.len() <= 3,
            forall|k: int|
                0 <= k < done@.len() ==> is_octet_field(#[trigger] fields(s.take(i as int))[k])
                    && done@[k] == digits_value(fields(s.take(i as int))[k]),
            fields(s.take(i as int)).last().len() == cur_len,
            cur_len <= 3,
            all_digits(fields(s.take(i as int)).last()),
            cur_val == digits_value(fields(s.take(i as int)).last()),
            cur_len == 0 ==> cur_val == 0,
            cur_len <= 1 ==> cur_val <= 9,
            cur_len <= 2 ==> cur_val <= 99,
            cur_val <= 999,
        decreases n - i,
    {
        let c = b[i];
        let ghost f = fields(s.take(i as int));
        let ghost ch = s[i as int];
        proof {
            lemma_fields_nonempty(s.take(i as int));
            assert(s.take(i as int + 1).drop_last() =~= s.take(i as int));
            assert(s.take(i as int + 1).last() == ch);
            assert(c == ch as u8);
            assert(ch as int == c as int);
            assert(is_digit(ch) <==> ASCII_ZERO <= c && c <= ASCII_NINE);
            assert(ch == '.' <==> c == ASCII_PERIOD);
            assert(is_digit(ch) ==> digit_value(ch) == c - ASCII_ZERO);
            lemma_prefix_fields(s, i as int + 1);
        }
        if ASCII_ZERO <= c && c <= ASCII_NINE {
            if cur_len == 3 {
                proof {
                    let g = fields(s.take(i as int + 1));
                    assert(g =~= f.update(f.len() - 1, f.last().push(ch)));
                    assert(g.last().len() == 4);
                    assert(!is_octet_field(fields(s)[g.len() - 1]));
                }
                return None;
            }
            proof {
                let t = f.last().push(ch);
                assert(t.drop_last() =~= f.last());
                assert(all_digits(t));
            }
            cur_val = cur_val * 10 + (c - ASCII_ZERO) as u32;
            cur_len = cur_len + 1;
        } else if c == ASCII_PERIOD {
            if cur_len == 0 || cur_val > 255 || done.len() == 3 {
                proof {
                    let g = fields(s.take(i as int + 1));
                    assert(g =~= f.push(Seq::empty()));
                    if done@.len() < 3 {
                        assert(g[f.len() - 1] == f.last());
                        assert(fields(s)[f.len() - 1] == f.last());
                        assert(!is_octet_field(fields(s)[f.len() - 1]));
                    }
                }
                return None;
            }
            done.push(cur_val as u8);
            cur_len = 0;
            cur_val = 0;
            proof {
                let g = fields(s.take(i as int + 1));
                assert(g =~= f.push(Seq::empty()));
                assert(all_digits(g.last()));
            }
        } else {
            proof {
                let g = fields(s.take(i as int + 1));
                assert(g =~= f.update(f.len() - 1, f.last().push(ch)));
                assert(g.last()[g.last().len() - 1] == ch);
                assert(!is_digit(ch));
                assert(!is_octet_field(fields(s)[g.len() - 1]));
            }
            return None;
        }
        i = i + 1;
    }
    proof {
        assert(s.take(n as int) =~= s);
    }
    if cur_len == 0 || cur_val > 255 || done.len() != 3 {
        proof {
            if done@.len() == 3 {
                assert(!is_octet_field(fields(s)[3]));
            }
        }
        return None;
    }
    done.push(cur_val as u8);
    let r = [done[0], done[1], done[2], done[3]];
    proof {
        assert(r@ =~= literal_octets(s));
    }
    Some(r)
}

/// Whether the whole of `input` is dotted-decimal IPv4 text: exactly four
/// fields separated by single periods, each of one to three ASCII digits
/// with a value of at most 255. Any other string, the empty one included,
/// gives `false`.
pub fn is_ipaddrv4(input: &str) -> (r: bool)
    ensures
        r == is_ipv4_literal(input@),
{
    parse_ipv4_literal(input).is_some()
}

} // verus!
