//! Rendering one record as a single compact line of JSON text, with the
//! string escapes JSON requires.
use vstd::prelude::*;

use crate::record::{Json, JsonV, jview, jvals, pairs_view};
use crate::text::{chars_of, string_from_chars};

verus! {

broadcast use vstd::std_specs::vec::group_vec_axioms;

/// The lower-case hex digit for a value below 16.
pub open spec fn hex_digit(d: int) -> char {
    if d == 0 {
        '0'
    } else if d == 1 {
        '1'
    } else if d == 2 {
        '2'
    } else if d == 3 {
        '3'
    } else if d == 4 {
        '4'
    } else if d == 5 {
        '5'
    } else if d == 6 {
        '6'
    } else if d == 7 {
        '7'
    } else if d == 8 {
        '8'
    } else if d == 9 {
        '9'
    } else if d == 10 {
        'a'
    } else if d == 11 {
        'b'
    } else if d == 12 {
        'c'
    } else if d == 13 {
        'd'
    } else if d == 14 {
        'e'
    } else {
        'f'
    }
}

/// The escape of one character inside a JSON string literal: quote,
/// backslash and the named control characters get short escapes, the
/// other control characters a hex escape, everything else stands as is.
pub open spec fn esc_char(c: char) -> Seq<char> {
    if c == '"' {
        seq!['\\', '"']
    } else if c == '\\' {
        seq!['\\', '\\']
    } else if c == '\u{8}' {
        seq!['\\', 'b']
    } else if c == '\u{c}' {
        seq!['\\', 'f']
    } else if c == '\n' {
        seq!['\\', 'n']
    } else if c == '\r' {
        seq!['\\', 'r']
    } else if c == '\t' {
        seq!['\\', 't']
    } else if (c as u32) < 0x20 {
        seq!['\\', 'u', '0', '0', hex_digit((c as u32) as int / 16), hex_digit((c as u32) as int % 16)]
    } else {
        seq![c]
    }
}

/// A string's characters, escaped in order.
pub open spec fn esc_str(s: Seq<char>) -> Seq<char>
    decreases s.len(),
{
    if s.len() == 0 {
        Seq::empty()
    } else {
        esc_str(s.drop_last()) + esc_char(s.last())
    }
}

/// A JSON string literal: the escaped characters between quotes.
pub open spec fn str_lit_v(s: Seq<char>) -> Seq<char> {
    seq!['"'] + esc_str(s) + seq!['"']
}

/// The compact JSON text of a record.
pub open spec fn ser(j: JsonV) -> Seq<char>
    decreases j, 2int,
{
    match j {
        JsonV::Text(s) => str_lit_v(s),
        JsonV::Arr(vs) => seq!['['] + ser_items(vs) + seq![']'],
        JsonV::Obj(ps) => seq!['{'] + ser_fields(ps) + seq!['}'],
    }
}

/// The comma-separated texts of an array's items, in order.
pub open spec fn ser_items(vs: Seq<JsonV>) -> Seq<char>
    decreases vs, 1int,
{
    if vs.len() == 0 {
        Seq::empty()
    } else {
        ser_items(vs.drop_last()) + (if vs.len() > 1 {
            seq![',']
        } else {
            Seq::empty()
        }) + ser(vs.last())
    }
}

/// The comma-separated `"name":value` texts of an object's fields, in
/// order.
pub open spec fn ser_fields(ps: Seq<(Seq<char>, JsonV)>) -> Seq<char>
    decreases ps, 1int,
{
    if ps.len() == 0 {
        Seq::empty()
    } else {
        ser_fields(ps.drop_last()) + (if ps.len() > 1 {
            seq![',']
        } else {
            Seq::empty()
        }) + str_lit_v(ps.last().0) + seq![':'] + ser(ps.last().1)
    }
}

proof fn lemma_esc_str_step(s: Seq<char>, i: int)
    requires
        0 <= i < s.len(),
    ensures
        esc_str(s.take(i + 1)) == esc_str(s.take(i)) + esc_char(s[i]),
{
    assert(s.take(i + 1).drop_last() =~= s.take(i));
    assert(s.take(i + 1).last() == s[i]);
}

proof fn lemma_ser_items_step(vs: Seq<JsonV>, i: int)
    requires
        0 <= i < vs.len(),
    ensures
        ser_items(vs.take(i + 1)) == ser_items(vs.take(i)) + (if i > 0 {
            seq![',']
        } else {
            Seq::<char>::empty()
        }) + ser(vs[i]),
{
    assert(vs.take(i + 1).drop_last() =~= vs.take(i));
    assert(vs.take(i + 1).last() == vs[i]);
}

proof fn lemma_ser_fields_step(ps: Seq<(Seq<char>, JsonV)>, i: int)
    requires
        0 <= i < ps.len(),
    ensures
        ser_fields(ps.take(i + 1)) == ser_fields(ps.take(i)) + (if i > 0 {
            seq![',']
        } else {
            Seq::<char>::empty()
        }) + str_lit_v(ps[i].0) + seq![':'] + ser(ps[i].1),
{
    assert(ps.take(i + 1).drop_last() =~= ps.take(i));
    assert(ps.take(i + 1).last() == ps[i]);
}

/// The lower-case hex digit of a value below 16.
fn hex_digit_of(d: u32) -> (c: char)
    requires
        d < 16,
    ensures
        c == hex_digit(d as int),
{
    if d == 0 {
        '0'
    } else if d == 1 {
        '1'
    } else if d == 2 {
        '2'
    } else if d == 3 {
        '3'
    } else if d == 4 {
        '4'
    } else if d == 5 {
        '5'
    } else if d == 6 {
        '6'
    } else if d == 7 {
        '7'
    } else if d == 8 {
        '8'
    } else if d == 9 {
        '9'
    } else if d == 10 {
        'a'
    } else if d == 11 {
        'b'
    } else if d == 12 {
        'c'
    } else if d == 13 {
        'd'
    } else if d == 14 {
        'e'
    } else {
        'f'
    }
}

/// Appends the escaped characters of `s`.
fn write_escaped(s: &str, out: &mut Vec<char>)
    ensures
        final(out)@ == old(out)@ + esc_str(s@),
{
    let cs = chars_of(s);
    let ghost start = old(out)@;
    let mut i: usize = 0;
    proof {
        assert(start + esc_str(s@.take(0)) =~= start);
    }
    while i < cs.len()
        invariant
            i <= cs@.len(),
            cs@ == s@,
            out@ == start + esc_str(s@.take(i as int)),
        decreases cs@.len() - i,
    {
        let c = cs[i];
        proof {
            lemma_esc_str_step(s@, i as int);
        }
        if c == '"' {
            out.push('\\');
            out.push('"');
        } else if c == '\\' {
            out.push('\\');
            out.push('\\');
        } else if c == '\u{8}' {
            out.push('\\');
            out.push('b');
        } else if c == '\u{c}' {
            out.push('\\');
            out.push('f');
        } else if c == '\n' {
            out.push('\\');
            out.push('n');
        } else if c == '\r' {
            out.push('\\');
            out.push('r');
        } else if c == '\t' {
            out.push('\\');
            out.push('t');
        } else if (c as u32) < 0x20 {
            out.push('\\');
            out.push('u');
            out.push('0');
            out.push('0');
            out.push(hex_digit_of((c as u32) / 16));
            out.push(hex_digit_of((c as u32) % 16));
        } else {
            out.push(c);
        }
        proof {
            assert(out@ =~= start + esc_str(s@.take(i + 1)));
        }
        i = i + 1;
    }
    proof {
        assert(s@.take(cs@.len() as int) =~= s@);
    }
}

/// Appends the compact JSON text of a record.
fn write_json(j: &Json, out: &mut Vec<char>)
    ensures
        final(out)@ == old(out)@ + ser(jview(*j)),
    decreases *j,
{
    let ghost start = old(out)@;
    match j {
        Json::Text(s) => {
            out.push('"');
            write_escaped(s.as_str(), out);
            out.push('"');
            proof {
                assert(out@ =~= start + str_lit_v(s@));
            }
        },
        Json::Arr(vs) => {
            out.push('[');
            let mut i: usize = 0;
            proof {
                assert(out@ =~= start + seq!['['] + ser_items(jvals(vs@).take(0)));
            }
            while i < vs.len()
                invariant
                    i <= vs@.len(),
                    *j == Json::Arr(*vs),
                    jview(*j) == JsonV::Arr(jvals(vs@)),
                    out@ == start + seq!['['] + ser_items(jvals(vs@).take(i as int)),
                decreases vs@.len() - i, 1int,
            {
                proof {
                    lemma_ser_items_step(jvals(vs@), i as int);
                    assert(jvals(vs@)[i as int] == jview(vs@[i as int]));
                }
                if i > 0 {
                    out.push(',');
                }
                write_json(&vs[i], out);
                proof {
                    assert(out@ =~= start + seq!['['] + ser_items(jvals(vs@).take(i + 1)));
                }
                i = i + 1;
            }
            out.push(']');
            proof {
                assert(jvals(vs@).take(vs@.len() as int) =~= jvals(vs@));
                assert(out@ =~= start + ser(jview(*j)));
            }
        },
        Json::Obj(ps) => {
            out.push('{');
            let mut i: usize = 0;
            proof {
                assert(out@ =~= start + seq!['{'] + ser_fields(pairs_view(ps@).take(0)));
            }
            while i < ps.len()
                invariant
                    i <= ps@.len(),
                    *j == Json::Obj(*ps),
                    jview(*j) == JsonV::Obj(pairs_view(ps@)),
                    out@ == start + seq!['{'] + ser_fields(pairs_view(ps@).take(i as int)),
                decreases ps@.len() - i, 1int,
            {
                proof {
                    lemma_ser_fields_step(pairs_view(ps@), i as int);
                    assert(pairs_view(ps@)[i as int] == (ps@[i as int].0@, jview(
                        ps@[i as int].1,
                    )));
                }
                if i > 0 {
                    out.push(',');
                }
                out.push('"');
                write_escaped(ps[i].0.as_str(), out);
                out.push('"');
                out.push(':');
                write_json(&ps[i].1, out);
                proof {
                    assert(out@ =~= start + seq!['{'] + ser_fields(pairs_view(ps@).take(i + 1)));
                }
                i = i + 1;
            }
            out.push('}');
            proof {
                assert(pairs_view(ps@).take(ps@.len() as int) =~= pairs_view(ps@));
                assert(out@ =~= start + ser(jview(*j)));
            }
        },
    }
}

/// Renders one record as a single compact line of JSON text.
pub fn render_line(j: &Json) -> (r: String)
    ensures
        r@ == ser(jview(*j)),
{
    let mut out: Vec<char> = Vec::new();
    write_json(j, &mut out);
    string_from_chars(&out)
}


proof fn lemma_concat_no_newline(a: Seq<char>, b: Seq<char>)
    requires
        forall|i: int| 0 <= i < a.len() ==> a[i] != '\n',
        forall|i: int| 0 <= i < b.len() ==> b[i] != '\n',
    ensures
        forall|i: int| 0 <= i < (a + b).len() ==> (a + b)[i] != '\n',
{
    assert forall|i: int| 0 <= i < (a + b).len() implies (a + b)[i] != '\n' by {
        if i < a.len() {
            assert((a + b)[i] == a[i]);
        } else {
            assert((a + b)[i] == b[i - a.len()]);
        }
    }
}

proof fn lemma_one_char_no_newline(c: char)
    requires
        c != '\n',
    ensures
        forall|i: int| 0 <= i < seq![c].len() ==> seq![c][i] != '\n',
{
    assert(seq![c][0] == c);
}

proof fn lemma_esc_char_no_newline(c: char)
    ensures
        forall|i: int| 0 <= i < esc_char(c).len() ==> esc_char(c)[i] != '\n',
{
    assert('\n' as u32 == 10);
}

proof fn lemma_esc_str_no_newline(s: Seq<char>)
    ensures
        forall|i: int| 0 <= i < esc_str(s).len() ==> esc_str(s)[i] != '\n',
    decreases s.len(),
{
    if s.len() > 0 {
        lemma_esc_str_no_newline(s.drop_last());
        lemma_esc_char_no_newline(s.last());
        lemma_concat_no_newline(esc_str(s.drop_last()), esc_char(s.last()));
    }
}

/// A compact line never holds a line break: every control character in a
/// string is escaped, so each record written to the sink stays a single
/// line, and every line already written stays intact on its own.
pub proof fn lemma_line_stays_single(j: JsonV)
    ensures
        forall|i: int| 0 <= i < ser(j).len() ==> ser(j)[i] != '\n',
    decreases j, 2int,
{
    match j {
        JsonV::Text(s) => {
            lemma_esc_str_no_newline(s);
            lemma_one_char_no_newline('"');
            lemma_concat_no_newline(seq!['"'], esc_str(s));
            lemma_concat_no_newline(seq!['"'] + esc_str(s), seq!['"']);
        },
        JsonV::Arr(vs) => {
            lemma_items_stay_single(vs);
            lemma_one_char_no_newline('[');
            lemma_one_char_no_newline(']');
            lemma_concat_no_newline(seq!['['], ser_items(vs));
            lemma_concat_no_newline(seq!['['] + ser_items(vs), seq![']']);
        },
        JsonV::Obj(ps) => {
            lemma_fields_stay_single(ps);
            lemma_one_char_no_newline('{');
            lemma_one_char_no_newline('}');
            lemma_concat_no_newline(seq!['{'], ser_fields(ps));
            lemma_concat_no_newline(seq!['{'] + ser_fields(ps), seq!['}']);
        },
    }
}

proof fn lemma_items_stay_single(vs: Seq<JsonV>)
    ensures
        forall|i: int| 0 <= i < ser_items(vs).len() ==> ser_items(vs)[i] != '\n',
    decreases vs, 1int,
{
    if vs.len() > 0 {
        lemma_items_stay_single(vs.drop_last());
        lemma_line_stays_single(vs.last());
        let sep: Seq<char> = if vs.len() > 1 {
            seq![',']
        } else {
            Seq::empty()
        };
        lemma_one_char_no_newline(',');
        lemma_concat_no_newline(ser_items(vs.drop_last()), sep);
        lemma_concat_no_newline(ser_items(vs.drop_last()) + sep, ser(vs.last()));
    }
}

proof fn lemma_fields_stay_single(ps: Seq<(Seq<char>, JsonV)>)
    ensures
        forall|i: int| 0 <= i < ser_fields(ps).len() ==> ser_fields(ps)[i] != '\n',
    decreases ps, 1int,
{
    if ps.len() > 0 {
        lemma_fields_stay_single(ps.drop_last());
        lemma_esc_str_no_newline(ps.last().0);
        lemma_line_stays_single(ps.last().1);
        let sep: Seq<char> = if ps.len() > 1 {
            seq![',']
        } else {
            Seq::empty()
        };
        lemma_one_char_no_newline(',');
        lemma_one_char_no_newline('"');
        lemma_one_char_no_newline(':');
        lemma_concat_no_newline(seq!['"'], esc_str(ps.last().0));
        lemma_concat_no_newline(seq!['"'] + esc_str(ps.last().0), seq!['"']);
        let key_lit = str_lit_v(ps.last().0);
        assert(key_lit == seq!['"'] + esc_str(ps.last().0) + seq!['"']);
        lemma_concat_no_newline(ser_fields(ps.drop_last()), sep);
        lemma_concat_no_newline(ser_fields(ps.drop_last()) + sep, key_lit);
        lemma_concat_no_newline(ser_fields(ps.drop_last()) + sep + key_lit, seq![':']);
        lemma_concat_no_newline(
            ser_fields(ps.drop_last()) + sep + key_lit + seq![':'],
            ser(ps.last().1),
        );
    }
}


/// The multi-line JSON text of a record, two spaces of indent per level;
/// `ind` is the indentation of the surrounding level.
pub open spec fn ser_pretty(j: JsonV, ind: Seq<char>) -> Seq<char>
    decreases j, 2int,
{
    match j {
        JsonV::Text(s) => str_lit_v(s),
        JsonV::Arr(vs) => if vs.len() == 0 {
            seq!['[', ']']
        } else {
            seq!['['] + ser_pretty_items(vs, ind) + seq!['\n'] + ind + seq![']']
        },
        JsonV::Obj(ps) => if ps.len() == 0 {
            seq!['{', '}']
        } else {
            seq!['{'] + ser_pretty_fields(ps, ind) + seq!['\n'] + ind + seq!['}']
        },
    }
}

/// An array's items, each on its own deeper-indented line.
pub open spec fn ser_pretty_items(vs: Seq<JsonV>, ind: Seq<char>) -> Seq<char>
    decreases vs, 1int,
{
    if vs.len() == 0 {
        Seq::empty()
    } else {
        ser_pretty_items(vs.drop_last(), ind) + (if vs.len() > 1 {
            seq![',']
        } else {
            Seq::empty()
        }) + seq!['\n'] + ind + seq![' ', ' '] + ser_pretty(vs.last(), ind + seq![' ', ' '])
    }
}

/// An object's fields, each `"name": value` on its own deeper-indented
/// line.
pub open spec fn ser_pretty_fields(ps: Seq<(Seq<char>, JsonV)>, ind: Seq<char>) -> Seq<char>
    decreases ps, 1int,
{
    if ps.len() == 0 {
        Seq::empty()
    } else {
        ser_pretty_fields(ps.drop_last(), ind) + (if ps.len() > 1 {
            seq![',']
        } else {
            Seq::empty()
        }) + seq!['\n'] + ind + seq![' ', ' '] + str_lit_v(ps.last().0) + seq![':', ' ']
            + ser_pretty(ps.last().1, ind + seq![' ', ' '])
    }
}

proof fn lemma_ser_pretty_items_step(vs: Seq<JsonV>, ind: Seq<char>, i: int)
    requires
        0 <= i < vs.len(),
    ensures
        ser_pretty_items(vs.take(i + 1), ind) == ser_pretty_items(vs.take(i), ind) + (if i > 0 {
            seq![',']
        } else {
            Seq::<char>::empty()
        }) + seq!['\n'] + ind + seq![' ', ' '] + ser_pretty(vs[i], ind + seq![' ', ' ']),
{
    assert(vs.take(i + 1).drop_last() =~= vs.take(i));
    assert(vs.take(i + 1).last() == vs[i]);
}

proof fn lemma_ser_pretty_fields_step(ps: Seq<(Seq<char>, JsonV)>, ind: Seq<char>, i: int)
    requires
        0 <= i < ps.len(),
    ensures
        ser_pretty_fields(ps.take(i + 1), ind) == ser_pretty_fields(ps.take(i), ind) + (if i > 0 {
            seq![',']
        } else {
            Seq::<char>::empty()
        }) + seq!['\n'] + ind + seq![' ', ' '] + str_lit_v(ps[i].0) + seq![':', ' ']
            + ser_pretty(ps[i].1, ind + seq![' ', ' ']),
{
    assert(ps.take(i + 1).drop_last() =~= ps.take(i));
    assert(ps.take(i + 1).last() == ps[i]);
}

/// One level more of indentation.
fn extend_indent(ind: &Vec<char>) -> (r: Vec<char>)
    ensures
        r@ == ind@ + seq![' ', ' '],
{
    let mut r: Vec<char> = Vec::new();
    let mut i: usize = 0;
    while i < ind.len()
        invariant
            i <= ind@.len(),
            r@ == ind@.take(i as int),
        decreases ind@.len() - i,
    {
        r.push(ind[i]);
        proof {
            assert(r@ =~= ind@.take(i + 1));
        }
        i = i + 1;
    }
    r.push(' ');
    r.push(' ');
    proof {
        assert(ind@.take(ind@.len() as int) =~= ind@);
        assert(r@ =~= ind@ + seq![' ', ' ']);
    }
    r
}

/// Appends the indentation, then the multi-line JSON text of a record.
#[verifier::rlimit(50)]
fn write_json_pretty(j: &Json, ind: &Vec<char>, out: &mut Vec<char>)
    ensures
        final(out)@ == old(out)@ + ser_pretty(jview(*j), ind@),
    decreases *j,
{
    let ghost start = old(out)@;
    match j {
        Json::Text(s) => {
            out.push('"');
            write_escaped(s.as_str(), out);
            out.push('"');
            proof {
                assert(out@ =~= start + str_lit_v(s@));
            }
        },
        Json::Arr(vs) => {
            if vs.len() == 0 {
                out.push('[');
                out.push(']');
                proof {
                    assert(out@ =~= start + seq!['[', ']']);
                    assert(jvals(vs@).len() == 0);
                }
                return ;
            }
            let deeper = extend_indent(ind);
            out.push('[');
            let mut i: usize = 0;
            proof {
                assert(out@ =~= start + seq!['['] + ser_pretty_items(jvals(vs@).take(0), ind@));
            }
            while i < vs.len()
                invariant
                    i <= vs@.len(),
                    *j == Json::Arr(*vs),
                    jview(*j) == JsonV::Arr(jvals(vs@)),
                    deeper@ == ind@ + seq![' ', ' '],
                    out@ == start + seq!['['] + ser_pretty_items(jvals(vs@).take(i as int), ind@),
                decreases vs@.len() - i, 1int,
            {
                proof {
                    lemma_ser_pretty_items_step(jvals(vs@), ind@, i as int);
                    assert(jvals(vs@)[i as int] == jview(vs@[i as int]));
                }
                if i > 0 {
                    out.push(',');
                }
                out.push('\n');
                let mut pad = extend_indent(ind);
                out.append(&mut pad);
                write_json_pretty(&vs[i], &deeper, out);
                proof {
                    assert(out@ =~= start + seq!['['] + ser_pretty_items(
                        jvals(vs@).take(i + 1),
                        ind@,
                    ));
                }
                i = i + 1;
            }
            out.push('\n');
            let mut pad0 = Vec::new();
            let mut k: usize = 0;
            while k < ind.len()
                invariant
                    k <= ind@.len(),
                    pad0@ == ind@.take(k as int),
                decreases ind@.len() - k,
            {
                pad0.push(ind[k]);
                proof {
                    assert(pad0@ =~= ind@.take(k + 1));
                }
                k = k + 1;
            }
            proof {
                assert(ind@.take(ind@.len() as int) =~= ind@);
            }
            out.append(&mut pad0);
            out.push(']');
            proof {
                assert(jvals(vs@).take(vs@.len() as int) =~= jvals(vs@));
                assert(out@ =~= start + ser_pretty(jview(*j), ind@));
            }
        },
        Json::Obj(ps) => {
            if ps.len() == 0 {
                out.push('{');
                out.push('}');
                proof {
                    assert(out@ =~= start + seq!['{', '}']);
                    assert(pairs_view(ps@).len() == 0);
                }
                return ;
            }
            let deeper = extend_indent(ind);
            out.push('{');
            let mut i: usize = 0;
            proof {
                assert(out@ =~= start + seq!['{'] + ser_pretty_fields(
                    pairs_view(ps@).take(0),
                    ind@,
                ));
            }
            while i < ps.len()
                invariant
                    i <= ps@.len(),
                    *j == Json::Obj(*ps),
                    jview(*j) == JsonV::Obj(pairs_view(ps@)),
                    deeper@ == ind@ + seq![' ', ' '],
                    out@ == start + seq!['{'] + ser_pretty_fields(
                        pairs_view(ps@).take(i as int),
                        ind@,
                    ),
                decreases ps@.len() - i, 1int,
            {
                proof {
                    lemma_ser_pretty_fields_step(pairs_view(ps@), ind@, i as int);
                    assert(pairs_view(ps@)[i as int] == (ps@[i as int].0@, jview(
                        ps@[i as int].1,
                    )));
                }
                if i > 0 {
                    out.push(',');
                }
                out.push('\n');
                let mut pad = extend_indent(ind);
                out.append(&mut pad);
                out.push('"');
                write_escaped(ps[i].0.as_str(), out);
                out.push('"');
                out.push(':');
                out.push(' ');
                write_json_pretty(&ps[i].1, &deeper, out);
                proof {
                    assert(out@ =~= start + seq!['{'] + ser_pretty_fields(
                        pairs_view(ps@).take(i + 1),
                        ind@,
                    ));
                }
                i = i + 1;
            }
            out.push('\n');
            let mut pad0 = Vec::new();
            let mut k: usize = 0;
            while k < ind.len()
                invariant
                    k <= ind@.len(),
                    pad0@ == ind@.take(k as int),
                decreases ind@.len() - k,
            {
                pad0.push(ind[k]);
                proof {
                    assert(pad0@ =~= ind@.take(k + 1));
                }
                k = k + 1;
            }
            proof {
                assert(ind@.take(ind@.len() as int) =~= ind@);
            }
            out.append(&mut pad0);
            out.push('}');
            proof {
                assert(pairs_view(ps@).take(ps@.len() as int) =~= pairs_view(ps@));
                assert(out@ =~= start + ser_pretty(jview(*j), ind@));
            }
        },
    }
}

/// Renders one record as indented, multi-line JSON text.
pub fn render_pretty(j: &Json) -> (r: String)
    ensures
        r@ == ser_pretty(jview(*j), Seq::empty()),
{
    let mut out: Vec<char> = Vec::new();
    let ind: Vec<char> = Vec::new();
    write_json_pretty(j, &ind, &mut out);
    proof {
        assert(ind@ =~= Seq::<char>::empty());
    }
    string_from_chars(&out)
}

} // verus!
