//! Text form of matrices: one row per line, entries as base-10 integer
//! literals separated by commas. Parsing reduces each literal modulo p
//! digit by digit, so literals of any length land in the field; rendering
//! writes the reduced representative back in decimal.

use vstd::prelude::*;
use vstd::arithmetic::div_mod::lemma_add_mod_noop;
use vstd::arithmetic::div_mod::lemma_fundamental_div_mod;
use vstd::arithmetic::div_mod::lemma_mod_twice;
use vstd::arithmetic::div_mod::lemma_mul_mod_noop_left;
use vstd::arithmetic::div_mod::lemma_small_mod;
use crate::field::FieldElement;
use crate::field::FqConfig;
use crate::matrix::Matrix;
use crate::matrix::Vector;
use crate::matrix::vec_vals;
use crate::matrix::vec_wf;
use crate::Error;

verus! {

/// The value of a decimal digit, or -1 for any other character.
pub open spec fn digit_val(c: char) -> int {
    if c == '0' {
        0
    } else if c == '1' {
        1
    } else if c == '2' {
        2
    } else if c == '3' {
        3
    } else if c == '4' {
        4
    } else if c == '5' {
        5
    } else if c == '6' {
        6
    } else if c == '7' {
        7
    } else if c == '8' {
        8
    } else if c == '9' {
        9
    } else {
        -1
    }
}

/// c is a decimal digit.
pub open spec fn is_digit(c: char) -> bool {
    digit_val(c) >= 0
}

/// The digit character for a value in 0..=9.
pub open spec fn digit_char(d: int) -> char {
    if d == 0 {
        '0'
    } else if d == 1 {
        '1'
    } else if d == 2 {
        '2'
    } else if d == 3 {
        '3'
    } else if d == 4 {
        '4'
    } else if d == 5 {
        '5'
    } else if d == 6 {
        '6'
    } else if d == 7 {
        '7'
    } else if d == 8 {
        '8'
    } else {
        '9'
    }
}

/// Every character of s is a decimal digit.
pub open spec fn all_digits(s: Seq<char>) -> bool {
    forall|i: int| 0 <= i < s.len() ==> is_digit(#[trigger] s[i])
}

/// The integer a string of digits denotes, most significant first.
pub open spec fn dec_value(s: Seq<char>) -> int
    decreases s.len(),
{
    if s.len() == 0 {
        0
    } else {
        dec_value(s.drop_last()) * 10 + digit_val(s.last())
    }
}

/// The decimal digits of v, no leading zeros (a bare "0" for zero).
pub open spec fn digits_of(v: nat) -> Seq<char>
    decreases v,
{
    if v < 10 {
        seq![digit_char(v as int)]
    } else {
        digits_of(v / 10).push(digit_char((v % 10) as int))
    }
}

/// The left-to-right state of reading one comma-separated line: the
/// values already completed, the running accumulator reduced modulo p,
/// and whether the current entry holds a digit yet. `None` marks a
/// malformed line: a stray character, or a comma with no entry before it.
pub open spec fn scan(s: Seq<char>, p: int) -> Option<(Seq<int>, int, bool)>
    decreases s.len(),
{
    if s.len() == 0 {
        Some((Seq::empty(), 0int, false))
    } else {
        match scan(s.drop_last(), p) {
            Option::None => Option::None,
            Option::Some(st) => {
                let c = s.last();
                if c == ',' {
                    if st.2 {
                        Option::Some((st.0.push(st.1), 0int, false))
                    } else {
                        Option::None
                    }
                } else if is_digit(c) {
                    Option::Some((st.0, (st.1 * 10 + digit_val(c)) % p, true))
                } else {
                    Option::None
                }
            },
        }
    }
}

/// The row of residues a line denotes, if it is well formed: nonempty
/// entries of digits, separated by single commas.
pub open spec fn parse_row_spec(s: Seq<char>, p: int) -> Option<Seq<int>> {
    match scan(s, p) {
        Option::None => Option::None,
        Option::Some(st) => if st.2 {
            Option::Some(st.0.push(st.1))
        } else {
            Option::None
        },
    }
}

/// The text of a row: the entries in decimal, joined by commas.
pub open spec fn render_row_spec(vals: Seq<int>) -> Seq<char>
    decreases vals.len(),
{
    if vals.len() == 0 {
        Seq::empty()
    } else if vals.len() == 1 {
        digits_of(vals[0] as nat)
    } else {
        render_row_spec(vals.drop_last()) + seq![','] + digits_of(vals.last() as nat)
    }
}

/// The views of a sequence of lines.
pub open spec fn lines_view(lines: Seq<String>) -> Seq<Seq<char>> {
    Seq::new(lines.len(), |i: int| lines[i]@)
}

/// Every line parses.
pub open spec fn rows_parse(lines: Seq<Seq<char>>, p: int) -> bool {
    forall|i: int| 0 <= i < lines.len() ==> parse_row_spec(#[trigger] lines[i], p) is Some
}

/// The grid the lines denote (meaningful when every line parses).
pub open spec fn parsed_rows(lines: Seq<Seq<char>>, p: int) -> Seq<Seq<int>> {
    Seq::new(lines.len(), |i: int| parse_row_spec(lines[i], p).unwrap())
}

/// All rows share the length of the first.
pub open spec fn uniform_rows(rows: Seq<Seq<int>>) -> bool {
    forall|i: int| 0 <= i < rows.len() ==> (#[trigger] rows[i]).len() == rows[0].len()
}

/// The digit value of a character, if it is a digit.
fn digit_of_char(c: char) -> (d: Option<u64>)
    ensures
        d matches Some(x) ==> is_digit(c) && x as int == digit_val(c) && x < 10,
        d is None ==> !is_digit(c),
{
    match c {
        '0' => Some(0),
        '1' => Some(1),
        '2' => Some(2),
        '3' => Some(3),
        '4' => Some(4),
        '5' => Some(5),
        '6' => Some(6),
        '7' => Some(7),
        '8' => Some(8),
        '9' => Some(9),
        _ => None,
    }
}

/// One reduction step of reading a digit: reducing the accumulator first
/// does not change the running value modulo p.
proof fn lemma_mod_step(x: int, d: int, p: int)
    requires
        p >= 1,
    ensures
        ((x % p) * 10 + d) % p == (x * 10 + d) % p,
{
    lemma_mul_mod_noop_left(x, 10, p);
    lemma_add_mod_noop((x % p) * 10, d, p);
    lemma_add_mod_noop(x * 10, d, p);
    lemma_mod_twice(d, p);
}

/// A malformed prefix makes the whole line malformed.
proof fn lemma_scan_prefix_none(s: Seq<char>, k: int, p: int)
    requires
        0 <= k <= s.len(),
        scan(s.take(k), p) is None,
    ensures
        scan(s, p) is None,
    decreases s.len() - k,
{
    if k == s.len() {
        assert(s.take(k) =~= s);
    } else {
        assert(s.take(k + 1).drop_last() =~= s.take(k));
        assert(scan(s.take(k + 1), p) is None);
        lemma_scan_prefix_none(s, k + 1, p);
    }
}

/// Parse one comma-separated line of decimal literals into a row of field
/// elements, reducing every literal modulo p. Fails iff the line is not a
/// nonempty comma-separated list of nonempty digit strings.
pub fn parse_row(line: &str, cfg: &FqConfig) -> (res: Result<Vector, Error>)
    requires
        cfg.wf(),
    ensures
        res is Ok <==> parse_row_spec(line@, cfg.spec_modulus()) is Some,
        res matches Err(e) ==> e == Error::Parse,
        res matches Ok(v) ==> {
            &&& vec_wf(v@, cfg.spec_modulus())
            &&& parse_row_spec(line@, cfg.spec_modulus()) == Some(vec_vals(v@))
        },
{
    let ghost p: int = cfg.spec_modulus();
    let n: usize = line.unicode_len();
    let mut vals: Vector = Vec::new();
    let mut acc: u64 = 0;
    let mut seen: bool = false;
    let mut i: usize = 0;
    while i < n
        invariant
            0 <= i <= n,
            n as int == line@.len(),
            cfg.wf(),
            p == cfg.spec_modulus(),
            (acc as int) < p,
            vec_wf(vals@, p),
            scan(line@.take(i as int), p) == Some((vec_vals(vals@), acc as int, seen)),
        decreases n - i,
    {
        let c: char = line.get_char(i);
        proof {
            assert(line@.take(i + 1).drop_last() =~= line@.take(i as int));
            assert(line@.take(i + 1).last() == line@[i as int]);
        }
        if c == ',' {
            if !seen {
                proof {
                    assert(scan(line@.take(i + 1), p) is None);
                    lemma_scan_prefix_none(line@, i + 1, p);
                }
                return Err(Error::Parse);
            }
            let e: FieldElement = FieldElement::from_u64(acc, cfg);
            proof {
                lemma_small_mod(acc as nat, p as nat);
            }
            let ghost vals_old: Seq<FieldElement> = vals@;
            vals.push(e);
            proof {
                assert(vec_vals(vals@) =~= vec_vals(vals_old).push(acc as int));
            }
            acc = 0;
            seen = false;
        } else {
            match digit_of_char(c) {
                Some(d) => {
                    let wide: u128 = acc as u128 * 10 + d as u128;
                    let p128: u128 = cfg.modulus() as u128;
                    let reduced: u128 = wide % p128;
                    acc = reduced as u64;
                    seen = true;
                },
                None => {
                    proof {
                        assert(scan(line@.take(i + 1), p) is None);
                        lemma_scan_prefix_none(line@, i + 1, p);
                    }
                    return Err(Error::Parse);
                },
            }
        }
        i += 1;
    }
    proof {
        assert(line@.take(n as int) =~= line@);
    }
    if !seen {
        return Err(Error::Parse);
    }
    let e: FieldElement = FieldElement::from_u64(acc, cfg);
    proof {
        lemma_small_mod(acc as nat, p as nat);
    }
    let ghost vals_old: Seq<FieldElement> = vals@;
    vals.push(e);
    proof {
        assert(vec_vals(vals@) =~= vec_vals(vals_old).push(acc as int));
    }
    Ok(vals)
}

/// Parse a whole matrix: one line per row. A line that does not parse
/// gives `Error::Parse`; lines of unequal entry counts give
/// `Error::DimensionMismatch`; otherwise the grid of residues is exactly
/// what the lines denote.
pub fn parse_matrix(lines: &Vec<String>, cfg: &FqConfig) -> (res: Result<Matrix, Error>)
    requires
        cfg.wf(),
    ensures
        res is Ok <==> rows_parse(lines_view(lines@), cfg.spec_modulus()) && uniform_rows(
            parsed_rows(lines_view(lines@), cfg.spec_modulus()),
        ),
        res == Err::<Matrix, Error>(Error::Parse) <==> !rows_parse(
            lines_view(lines@),
            cfg.spec_modulus(),
        ),
        res matches Ok(m) ==> {
            &&& m.wf()
            &&& m.spec_modulus() == cfg.spec_modulus()
            &&& m@ == parsed_rows(lines_view(lines@), cfg.spec_modulus())
        },
{
    let ghost p: int = cfg.spec_modulus();
    let mut rows: Vec<Vec<FieldElement>> = Vec::new();
    let n: usize = lines.len();
    let mut i: usize = 0;
    while i < n
        invariant
            0 <= i <= n,
            n as int == lines@.len(),
            cfg.wf(),
            p == cfg.spec_modulus(),
            rows@.len() == i as int,
            forall|k: int| 0 <= k < i ==> vec_wf((#[trigger] rows@[k])@, p),
            forall|k: int|
                0 <= k < i ==> parse_row_spec(lines@[k]@, p) == Some(vec_vals(
                    (#[trigger] rows@[k])@,
                )),
        decreases n - i,
    {
        let row: Vector = match parse_row(lines[i].as_str(), cfg) {
            Ok(row) => row,
            Err(_) => {
                proof {
                    assert(parse_row_spec(lines_view(lines@)[i as int], p) is None);
                }
                return Err(Error::Parse);
            },
        };
        let ghost rows_old: Seq<Vec<FieldElement>> = rows@;
        rows.push(row);
        proof {
            assert forall|k: int| 0 <= k < i + 1 implies parse_row_spec(lines@[k]@, p) == Some(
                vec_vals((#[trigger] rows@[k])@),
            ) by {
                if k < i as int {
                    assert(rows@[k] == rows_old[k]);
                }
            }
        }
        i += 1;
    }
    proof {
        assert forall|k: int| 0 <= k < lines@.len() implies parse_row_spec(
            #[trigger] lines_view(lines@)[k],
            p,
        ) is Some by {
            assert(lines_view(lines@)[k] == lines@[k]@);
            assert(parse_row_spec(lines@[k]@, p) == Some(vec_vals(rows@[k]@)));
        }
    }
    let m: Matrix = match Matrix::new(rows, cfg) {
        Ok(m) => m,
        Err(_) => {
            proof {
                let pr = parsed_rows(lines_view(lines@), p);
                let rs = Seq::new(rows@.len(), |k: int| vec_vals(rows@[k]@));
                assert(pr =~= rs);
                // Construction failed, so some row length differs from the
                // first; the parsed grid carries the same lengths.
                assert(!(forall|k: int|
                    0 <= k < rows@.len() ==> (#[trigger] rows@[k])@.len() == rows@[0]@.len()));
                let k0 = choose|k: int|
                    !(0 <= k < rows@.len() ==> (#[trigger] rows@[k])@.len() == rows@[0]@.len());
                assert(pr[k0].len() != pr[0].len());
            }
            return Err(Error::DimensionMismatch);
        },
    };
    proof {
        let pr = parsed_rows(lines_view(lines@), p);
        assert(m@ =~= pr);
        assert(uniform_rows(pr)) by {
            assert forall|k: int| 0 <= k < pr.len() implies (#[trigger] pr[k]).len()
                == pr[0].len() by {
                assert(pr[k] == m@[k]);
                assert(pr[0] == m@[0]);
                m.lemma_wf_view();
            }
        }
    }
    Ok(m)
}

/// Relies on String's FromIterator over char: collecting characters
/// builds the string holding exactly those characters in order.
#[verifier::external_body]
fn chars_to_string(v: &Vec<char>) -> (s: String)
    ensures
        s@ == v@,
{
    v.iter().collect()
}

/// The digit character for a value below ten.
fn char_of_digit(d: u64) -> (c: char)
    requires
        d < 10,
    ensures
        c == digit_char(d as int),
{
    match d {
        0 => '0',
        1 => '1',
        2 => '2',
        3 => '3',
        4 => '4',
        5 => '5',
        6 => '6',
        7 => '7',
        8 => '8',
        9 => '9',
        _ => {
            proof {
                assert(false);
            }
            '0'
        },
    }
}

/// The decimal digits of v, most significant first.
fn digits_vec(v: u64) -> (r: Vec<char>)
    ensures
        r@ == digits_of(v as nat),
    decreases v,
{
    if v < 10 {
        let mut r: Vec<char> = Vec::new();
        r.push(char_of_digit(v));
        proof {
            assert(r@ =~= digits_of(v as nat));
        }
        r
    } else {
        let mut r: Vec<char> = digits_vec(v / 10);
        r.push(char_of_digit(v % 10));
        proof {
            assert(v as nat / 10 == (v / 10) as nat);
            assert(v as nat % 10 == (v % 10) as nat);
        }
        r
    }
}

/// Render one row as decimal literals joined by commas.
pub fn render_row(row: &Vector) -> (s: String)
    ensures
        s@ == render_row_spec(vec_vals(row@)),
{
    let ghost vv: Seq<int> = vec_vals(row@);
    let mut chars: Vec<char> = Vec::new();
    let n: usize = row.len();
    let mut i: usize = 0;
    while i < n
        invariant
            0 <= i <= n,
            n as int == row@.len(),
            vv == vec_vals(row@),
            chars@ == render_row_spec(vv.take(i as int)),
        decreases n - i,
    {
        if i > 0 {
            chars.push(',');
        }
        let mut d: Vec<char> = digits_vec(row[i].value());
        chars.append(&mut d);
        proof {
            assert(vv.take(i + 1).drop_last() =~= vv.take(i as int));
            assert(vv.take(i + 1).last() == vv[i as int]);
            assert(vv[i as int] == row@[i as int].spec_value());
            if i == 0 {
                assert(chars@ =~= render_row_spec(vv.take(i + 1)));
            } else {
                assert(chars@ =~= render_row_spec(vv.take(i as int)) + seq![','] + digits_of(
                    vv[i as int] as nat,
                ));
            }
        }
        i += 1;
    }
    proof {
        assert(vv.take(n as int) =~= vv);
    }
    chars_to_string(&chars)
}

/// A rendered number is a nonempty string of digits.
proof fn lemma_digits_of_wf(v: nat)
    ensures
        digits_of(v).len() >= 1,
        all_digits(digits_of(v)),
    decreases v,
{
    if v < 10 {
    } else {
        lemma_digits_of_wf(v / 10);
        let s = digits_of(v / 10);
        let c = digit_char((v % 10) as int);
        assert forall|i: int| 0 <= i < s.push(c).len() implies is_digit(#[trigger] s.push(c)[i]) by {
            if i < s.len() {
                assert(s.push(c)[i] == s[i]);
            } else {
                assert(s.push(c)[i] == c);
            }
        }
    }
}

/// Reading back the character of a digit gives the digit.
proof fn lemma_digit_char_val(d: int)
    requires
        0 <= d < 10,
    ensures
        digit_val(digit_char(d)) == d,
{
}

/// Rendering then reading a number gives the number back.
proof fn lemma_dec_value_digits_of(v: nat)
    ensures
        dec_value(digits_of(v)) == v,
    decreases v,
{
    if v < 10 {
        let s = digits_of(v);
        assert(s.drop_last() =~= Seq::<char>::empty());
        assert(s.last() == digit_char(v as int));
        lemma_digit_char_val(v as int);
        assert(dec_value(s) == dec_value(s.drop_last()) * 10 + digit_val(s.last()));
        assert(dec_value(s.drop_last()) == 0);
    } else {
        lemma_dec_value_digits_of(v / 10);
        let s = digits_of(v / 10);
        let c = digit_char((v % 10) as int);
        lemma_digit_char_val((v % 10) as int);
        assert(digits_of(v).drop_last() =~= s);
        assert(digits_of(v).last() == c);
        assert(dec_value(digits_of(v)) == dec_value(s) * 10 + digit_val(c));
        lemma_fundamental_div_mod(v as int, 10);
        assert(v as int == 10 * ((v / 10) as int) + ((v % 10) as int));
    }
}

/// A comma closes the entry the scanner was reading.
proof fn lemma_scan_push_comma(s: Seq<char>, p: int, st: (Seq<int>, int, bool))
    requires
        scan(s, p) == Some(st),
        st.2,
    ensures
        scan(s.push(','), p) == Some((st.0.push(st.1), 0int, false)),
{
    assert(s.push(',').drop_last() =~= s);
    assert(s.push(',').last() == ',');
}

/// Reading a digit string from a fresh accumulator leaves its value,
/// reduced modulo p, in the accumulator.
proof fn lemma_scan_append_digits(s: Seq<char>, t: Seq<char>, p: int, st: (Seq<int>, int, bool))
    requires
        p >= 1,
        scan(s, p) == Some(st),
        st.1 == 0,
        t.len() >= 1,
        all_digits(t),
    ensures
        scan(s + t, p) == Some((st.0, dec_value(t) % p, true)),
    decreases t.len(),
{
    let t1 = t.drop_last();
    let d = t.last();
    assert(is_digit(d)) by {
        assert(t[t.len() - 1] == d);
    }
    if t.len() == 1 {
        assert(s + t =~= s.push(d));
        assert(t1 =~= Seq::<char>::empty());
        assert(s.push(d).drop_last() =~= s);
        assert(s.push(d).last() == d);
        assert(dec_value(t) == digit_val(d));
        assert(scan(s + t, p) == Some((st.0, digit_val(d) % p, true)));
    } else {
        assert(all_digits(t1)) by {
            assert forall|i: int| 0 <= i < t1.len() implies is_digit(#[trigger] t1[i]) by {
                assert(t1[i] == t[i]);
            }
        }
        lemma_scan_append_digits(s, t1, p, st);
        assert(s + t =~= (s + t1).push(d));
        assert((s + t1).push(d).drop_last() =~= s + t1);
        assert((s + t1).push(d).last() == d);
        assert(scan(s + t, p) == Some((st.0, ((dec_value(t1) % p) * 10 + digit_val(d)) % p, true)));
        lemma_mod_step(dec_value(t1), digit_val(d), p);
        assert(dec_value(t) == dec_value(t1) * 10 + digit_val(d));
    }
}

/// Scanning a rendered row ends with all but the last value closed and
/// the last value in the accumulator.
proof fn lemma_scan_render(vals: Seq<int>, p: int)
    requires
        p >= 1,
        vals.len() >= 1,
        forall|k: int| 0 <= k < vals.len() ==> 0 <= #[trigger] vals[k] < p,
    ensures
        scan(render_row_spec(vals), p) == Some((vals.drop_last(), vals.last(), true)),
    decreases vals.len(),
{
    if vals.len() == 1 {
        let v0 = vals[0];
        let t = digits_of(v0 as nat);
        lemma_digits_of_wf(v0 as nat);
        lemma_dec_value_digits_of(v0 as nat);
        let st = (Seq::<int>::empty(), 0int, false);
        assert(scan(Seq::<char>::empty(), p) == Some(st));
        lemma_scan_append_digits(Seq::<char>::empty(), t, p, st);
        assert(Seq::<char>::empty() + t =~= t);
        lemma_small_mod(v0 as nat, p as nat);
        assert(vals.drop_last() =~= Seq::<int>::empty());
    } else {
        let v1 = vals.drop_last();
        let last = vals.last();
        assert forall|k: int| 0 <= k < v1.len() implies 0 <= #[trigger] v1[k] < p by {
            assert(v1[k] == vals[k]);
        }
        lemma_scan_render(v1, p);
        let st1 = (v1.drop_last(), v1.last(), true);
        lemma_scan_push_comma(render_row_spec(v1), p, st1);
        assert(v1.drop_last().push(v1.last()) =~= v1);
        let s2 = render_row_spec(v1).push(',');
        let st2 = (v1, 0int, false);
        assert(scan(s2, p) == Some(st2));
        let t = digits_of(last as nat);
        lemma_digits_of_wf(last as nat);
        lemma_dec_value_digits_of(last as nat);
        lemma_scan_append_digits(s2, t, p, st2);
        lemma_small_mod(last as nat, p as nat);
        assert(render_row_spec(vals) =~= s2 + t);
    }
}

/// Law (round trip): rendering a row of residues and parsing the text
/// back reproduces the row exactly, for any nonempty row of values
/// below p.
pub proof fn lemma_row_round_trip(vals: Seq<int>, p: int)
    requires
        p >= 1,
        vals.len() >= 1,
        forall|k: int| 0 <= k < vals.len() ==> 0 <= #[trigger] vals[k] < p,
    ensures
        parse_row_spec(render_row_spec(vals), p) == Some(vals),
{
    lemma_scan_render(vals, p);
    assert(vals.drop_last().push(vals.last()) =~= vals);
}

/// Law (round trip): rendering a grid line by line and parsing the lines
/// back reproduces the grid exactly, for any grid of nonempty rows of
/// residues below p.
pub proof fn lemma_matrix_round_trip(rows: Seq<Seq<int>>, p: int)
    requires
        p >= 1,
        forall|i: int| 0 <= i < rows.len() ==> (#[trigger] rows[i]).len() >= 1,
        forall|i: int, j: int|
            0 <= i < rows.len() && 0 <= j < rows[i].len() ==> 0 <= #[trigger] rows[i][j] < p,
    ensures
        forall|i: int|
            0 <= i < rows.len() ==> parse_row_spec(render_row_spec(#[trigger] rows[i]), p) == Some(
                rows[i],
            ),
{
    assert forall|i: int| 0 <= i < rows.len() implies parse_row_spec(
        render_row_spec(#[trigger] rows[i]),
        p,
    ) == Some(rows[i]) by {
        assert forall|k: int| 0 <= k < rows[i].len() implies 0 <= #[trigger] rows[i][k] < p by {}
        lemma_row_round_trip(rows[i], p);
    }
}

/// Render a matrix as lines of text, one row per line.
pub fn render_matrix(m: &Matrix) -> (lines: Vec<String>)
    requires
        m.wf(),
    ensures
        lines@.len() == m@.len(),
        forall|i: int| 0 <= i < m@.len() ==> (#[trigger] lines@[i])@ == render_row_spec(m@[i]),
{
    let mut lines: Vec<String> = Vec::new();
    let n: usize = m.num_rows();
    let mut i: usize = 0;
    while i < n
        invariant
            0 <= i <= n,
            n as int == m@.len(),
            m.wf(),
            lines@.len() == i as int,
            forall|k: int| 0 <= k < i ==> (#[trigger] lines@[k])@ == render_row_spec(m@[k]),
        decreases n - i,
    {
        let line: String = render_row(m.row(i));
        lines.push(line);
        i += 1;
    }
    lines
}

} // verus!
