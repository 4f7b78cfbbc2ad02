//! JSON text of reconciled views.
use vstd::prelude::*;
use crate::record::{Record, RecordModel, Value, ValueModel};
use crate::reconcile::models;

verus! {

/// The lower-case hexadecimal digit of `d < 16`.
pub open spec fn hex_digit(d: nat) -> char {
    if d < 10 {
        digit_char(d)
    } else {
        ((d - 10 + 97) as u8) as char
    }
}

/// The JSON escape of one character: `"` and `\` are preceded by a
/// backslash, the control characters below U+0020 become `\b`, `\t`, `\n`,
/// `\f`, `\r` or `\u00XX`, and every other character stands for itself.
pub open spec fn escape_char(c: char) -> Seq<char> {
    let n = c as u32;
    if c == '"' {
        seq!['\\', '"']
    } else if c == '\\' {
        seq!['\\', '\\']
    } else if n == 8 {
        seq!['\\', 'b']
    } else if n == 9 {
        seq!['\\', 't']
    } else if n == 10 {
        seq!['\\', 'n']
    } else if n == 12 {
        seq!['\\', 'f']
    } else if n == 13 {
        seq!['\\', 'r']
    } else if n < 32 {
        seq!['\\', 'u', '0', '0', hex_digit((n / 16) as nat), hex_digit((n % 16) as nat)]
    } else {
        seq![c]
    }
}

/// The characters of a text, each escaped.
pub open spec fn escaped(s: Seq<char>) -> Seq<char>
    decreases s.len(),
{
    if s.len() == 0 {
        Seq::empty()
    } else {
        escaped(s.drop_last()) + escape_char(s.last())
    }
}

/// The JSON string literal of a text: its escaped characters in double quotes.
pub open spec fn json_quoted(s: Seq<char>) -> Seq<char> {
    seq!['"'] + escaped(s) + seq!['"']
}

/// Relies on serde_json's `Display` of `Value::String`: the text in double
/// quotes, each character escaped by its escape table.
#[verifier::external_body]
pub(crate) fn quote(s: &String) -> (r: String)
    ensures
        r@ == json_quoted(s@),
{
    serde_json::Value::String(s.clone()).to_string()
}

/// The decimal digit character of `d < 10`.
pub open spec fn digit_char(d: nat) -> char {
    ((d + 48) as u8) as char
}

/// The decimal digits of `n`, most significant first.
pub open spec fn digits(n: nat) -> Seq<char>
    decreases n,
{
    if n < 10 {
        seq![digit_char(n)]
    } else {
        digits(n / 10).push(digit_char(n % 10))
    }
}

/// The decimal text of an integer, with a leading `-` when it is negative.
pub open spec fn decimal(n: int) -> Seq<char> {
    if n < 0 {
        seq!['-'] + digits((-n) as nat)
    } else {
        digits(n as nat)
    }
}

/// Relies on serde_json's `Display` of an integer `Value`: its decimal text.
#[verifier::external_body]
pub(crate) fn int_text(n: i64) -> (r: String)
    ensures
        r@ == decimal(n as int),
{
    serde_json::Value::from(n).to_string()
}

pub open spec fn null_text() -> Seq<char> {
    seq!['n', 'u', 'l', 'l']
}

pub open spec fn bool_text(b: bool) -> Seq<char> {
    if b {
        seq!['t', 'r', 'u', 'e']
    } else {
        seq!['f', 'a', 'l', 's', 'e']
    }
}

/// The JSON text of a value.
pub open spec fn value_text(v: ValueModel) -> Seq<char> {
    match v {
        ValueModel::Null => null_text(),
        ValueModel::Bool(b) => bool_text(b),
        ValueModel::Int(n) => decimal(n as int),
        ValueModel::Text(s) => json_quoted(s),
        ValueModel::Raw(s) => s,
    }
}

/// The JSON text of one `"key":value` member.
pub open spec fn entry_text(e: (Seq<char>, ValueModel)) -> Seq<char> {
    json_quoted(e.0) + seq![':'] + value_text(e.1)
}

/// The members of a record, separated by commas.
pub open spec fn joined_entries(m: RecordModel) -> Seq<char>
    decreases m.len(),
{
    if m.len() == 0 {
        Seq::empty()
    } else if m.len() == 1 {
        entry_text(m[0])
    } else {
        joined_entries(m.drop_last()) + seq![','] + entry_text(m.last())
    }
}

/// The JSON object text of a record.
pub open spec fn record_text(m: RecordModel) -> Seq<char> {
    seq!['{'] + joined_entries(m) + seq!['}']
}

/// The objects of a view, separated by commas.
pub open spec fn joined_records(v: Seq<RecordModel>) -> Seq<char>
    decreases v.len(),
{
    if v.len() == 0 {
        Seq::empty()
    } else if v.len() == 1 {
        record_text(v[0])
    } else {
        joined_records(v.drop_last()) + seq![','] + record_text(v.last())
    }
}

/// The JSON array text of a view.
pub open spec fn view_text(v: Seq<RecordModel>) -> Seq<char> {
    seq!['['] + joined_records(v) + seq![']']
}

/// Appends the JSON text of a value.
fn write_value(out: &mut String, v: &Value)
    ensures
        final(out)@ == old(out)@ + value_text(v@),
{
    match v {
        Value::Null => {
            out.append("null");
            proof {
                reveal_strlit("null");
            }
            assert(final(out)@ =~= old(out)@ + value_text(v@));
        },
        Value::Bool(b) => {
            if *b {
                out.append("true");
                proof {
                    reveal_strlit("true");
                }
            } else {
                out.append("false");
                proof {
                    reveal_strlit("false");
                }
            }
            assert(final(out)@ =~= old(out)@ + value_text(v@));
        },
        Value::Int(n) => {
            let t = int_text(*n);
            out.append(t.as_str());
        },
        Value::Text(s) => {
            let t = quote(s);
            out.append(t.as_str());
        },
        Value::Raw(s) => {
            out.append(s.as_str());
        },
    }
}

/// Appends the JSON object text of a record.
fn write_record(out: &mut String, r: &Record)
    ensures
        final(out)@ == old(out)@ + record_text(r@),
{
    proof {
        reveal_strlit("{");
        reveal_strlit("}");
        reveal_strlit(",");
        reveal_strlit(":");
    }
    out.append("{");
    let ghost start = out@;
    let n = r.fields.len();
    let mut i: usize = 0;
    assert(joined_entries(r@.subrange(0, 0)) =~= Seq::<char>::empty());
    assert(out@ =~= start + joined_entries(r@.subrange(0, 0)));
    while i < n
        invariant
            n == r.fields@.len(),
            n == r@.len(),
            0 <= i <= n,
            out@ == start + joined_entries(r@.subrange(0, i as int)),
        decreases n - i,
    {
        let ghost before = out@;
        let ghost pre = r@.subrange(0, i + 1);
        assert(pre.drop_last() =~= r@.subrange(0, i as int));
        assert(pre.last() == r@[i as int]);
        assert(r@[i as int] == (r.fields@[i as int].0@, r.fields@[i as int].1@));
        proof {
            reveal_strlit(",");
            reveal_strlit(":");
        }
        assert(","@ =~= seq![',']);
        assert(":"@ =~= seq![':']);
        if i > 0 {
            out.append(",");
        }
        let ghost mid = out@;
        let k = quote(&r.fields[i].0);
        out.append(k.as_str());
        out.append(":");
        write_value(out, &r.fields[i].1);
        assert(out@ =~= mid + entry_text(r@[i as int]));
        if i > 0 {
            assert(out@ =~= before + seq![','] + entry_text(r@[i as int]));
        } else {
            assert(pre =~= seq![r@[0]]);
            assert(out@ =~= before + entry_text(r@[i as int]));
        }
        assert(out@ =~= start + joined_entries(pre));
        i = i + 1;
    }
    assert(r@.subrange(0, n as int) =~= r@);
    out.append("}");
    assert(final(out)@ =~= old(out)@ + record_text(r@));
}

/// The JSON array text of a view.
pub fn view_json(v: &Vec<Record>) -> (r: String)
    ensures
        r@ == view_text(models(v@)),
{
    proof {
        reveal_strlit("[");
        reveal_strlit("]");
        reveal_strlit(",");
    }
    let ghost m = models(v@);
    let mut out = String::from_str("[");
    let ghost start = out@;
    let n = v.len();
    let mut i: usize = 0;
    assert(out@ =~= start + joined_records(m.subrange(0, 0)));
    while i < n
        invariant
            m == models(v@),
            n == v@.len(),
            0 <= i <= n,
            start == seq!['['],
            out@ == start + joined_records(m.subrange(0, i as int)),
        decreases n - i,
    {
        let ghost before = out@;
        let ghost pre = m.subrange(0, i + 1);
        assert(pre.drop_last() =~= m.subrange(0, i as int));
        assert(pre.last() == v@[i as int]@);
        proof {
            reveal_strlit(",");
        }
        assert(","@ =~= seq![',']);
        if i > 0 {
            out.append(",");
        }
        write_record(&mut out, &v[i]);
        if i > 0 {
            assert(out@ =~= before + seq![','] + record_text(v@[i as int]@));
        } else {
            assert(pre =~= seq![v@[0]@]);
        }
        assert(out@ =~= start + joined_records(pre));
        i = i + 1;
    }
    assert(m.subrange(0, n as int) =~= m);
    out.append("]");
    assert(out@ =~= view_text(m));
    out
}

/// The line to emit for a view: its JSON text, or nothing for an empty view.
pub fn emit_line(v: &Vec<Record>) -> (r: Option<String>)
    ensures
        v@.len() == 0 ==> r is None,
        v@.len() > 0 ==> (r matches Some(s) && s@ == view_text(models(v@))),
{
    if v.len() == 0 {
        None
    } else {
        Some(view_json(v))
    }
}

} // verus!
