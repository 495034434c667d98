//! The value model of the EDN notation and its one-line rendering.

use vstd::prelude::*;
use crate::text::{decimal, push_char, push_decimal, push_str};

verus! {

/// A parsed EDN value.
///
/// A map holds its entries in the order in which the parser walks them; a
/// set holds its elements likewise. A floating-point number is held as the
/// text of its default decimal rendering.
#[derive(Debug)]
pub enum Value {
    Nil,
    Boolean(bool),
    Str(String),
    Char(char),
    Symbol(String),
    Keyword(String),
    Integer(i64),
    Float(String),
    List(Vec<Value>),
    Vector(Vec<Value>),
    Dict(Vec<(Value, Value)>),
    SetOf(Vec<Value>),
    Tagged(String, Box<Value>),
}

/// The canonical one-line text of a value. Collections join their elements
/// with commas and no spaces; a tagged value renders as `#tag value`
/// wherever it stands, inside a table cell too.
pub open spec fn rendered(v: Value) -> Seq<char>
    decreases v,
{
    match v {
        Value::Nil => seq!['n', 'i', 'l'],
        Value::Boolean(b) => if b {
            seq!['t', 'r', 'u', 'e']
        } else {
            seq!['f', 'a', 'l', 's', 'e']
        },
        Value::Str(s) => s@,
        Value::Char(c) => seq![c],
        Value::Symbol(s) => s@,
        Value::Keyword(k) => k@,
        Value::Integer(i) => decimal(i as int),
        Value::Float(t) => t@,
        Value::List(xs) => seq!['('] + rendered_elems(xs@) + seq![')'],
        Value::Vector(xs) => seq!['['] + rendered_elems(xs@) + seq![']'],
        Value::Dict(es) => seq!['{'] + rendered_entries(es@) + seq!['}'],
        Value::SetOf(xs) => seq!['#', '{'] + rendered_elems(xs@) + seq!['}'],
        Value::Tagged(t, inner) => seq!['#'] + t@ + seq![' '] + rendered(*inner),
    }
}

/// The comma-joined renderings of a sequence of values.
pub open spec fn rendered_elems(xs: Seq<Value>) -> Seq<char>
    decreases xs,
{
    if xs.len() == 0 {
        Seq::empty()
    } else if xs.len() == 1 {
        rendered(xs[0])
    } else {
        rendered_elems(xs.drop_last()) + seq![','] + rendered(xs.last())
    }
}

/// The comma-joined `key value` renderings of a sequence of map entries.
pub open spec fn rendered_entries(es: Seq<(Value, Value)>) -> Seq<char>
    decreases es,
{
    if es.len() == 0 {
        Seq::empty()
    } else if es.len() == 1 {
        rendered(es[0].0) + seq![' '] + rendered(es[0].1)
    } else {
        rendered_entries(es.drop_last()) + seq![','] + rendered(es.last().0) + seq![' ']
            + rendered(es.last().1)
    }
}

/// Renders a value as its canonical one-line text.
///
/// Every variant renders; nothing fails.
pub fn render(v: &Value) -> (r: String)
    ensures
        r@ == rendered(*v),
{
    let mut s = String::new();
    render_into(v, &mut s);
    assert(s@ =~= rendered(*v));
    s
}

/// Rendering is a function of the value alone: two renderings of one value
/// are the same text.
pub proof fn lemma_render_deterministic(v: Value, a: Seq<char>, b: Seq<char>)
    requires
        a == rendered(v),
        b == rendered(v),
    ensures
        a == b,
{
}

/// Appends the rendering of `v`.
pub fn render_into(v: &Value, s: &mut String)
    ensures
        final(s)@ == old(s)@ + rendered(*v),
    decreases v,
{
    let ghost start = s@;
    match v {
        Value::Nil => {
            push_str(s, "nil");
            proof { reveal_strlit("nil"); }
            assert(s@ =~= start + rendered(*v));
        },
        Value::Boolean(b) => {
            if *b {
                push_str(s, "true");
                proof { reveal_strlit("true"); }
            } else {
                push_str(s, "false");
                proof { reveal_strlit("false"); }
            }
            assert(s@ =~= start + rendered(*v));
        },
        Value::Str(t) => push_str(s, t.as_str()),
        Value::Char(c) => {
            push_char(s, *c);
            assert(s@ =~= start + rendered(*v));
        },
        Value::Symbol(t) => push_str(s, t.as_str()),
        Value::Keyword(k) => push_str(s, k.as_str()),
        Value::Integer(i) => push_decimal(s, *i),
        Value::Float(t) => push_str(s, t.as_str()),
        Value::List(xs) => {
            push_char(s, '(');
            render_elems_into(xs, s);
            push_char(s, ')');
            assert(s@ =~= start + rendered(*v));
        },
        Value::Vector(xs) => {
            push_char(s, '[');
            render_elems_into(xs, s);
            push_char(s, ']');
            assert(s@ =~= start + rendered(*v));
        },
        Value::Dict(es) => {
            push_char(s, '{');
            render_entries_into(es, s);
            push_char(s, '}');
            assert(s@ =~= start + rendered(*v));
        },
        Value::SetOf(xs) => {
            push_char(s, '#');
            push_char(s, '{');
            render_elems_into(xs, s);
            push_char(s, '}');
            assert(s@ =~= start + rendered(*v));
        },
        Value::Tagged(t, inner) => {
            push_char(s, '#');
            push_str(s, t.as_str());
            push_char(s, ' ');
            render_into(inner, s);
            assert(s@ =~= start + rendered(*v));
        },
    }
}

/// Appends the comma-joined renderings of `xs`.
fn render_elems_into(xs: &Vec<Value>, s: &mut String)
    ensures
        final(s)@ == old(s)@ + rendered_elems(xs@),
    decreases xs,
{
    let ghost start = s@;
    let mut i: usize = 0;
    while i < xs.len()
        invariant
            i <= xs.len(),
            s@ == start + rendered_elems(xs@.take(i as int)),
        decreases xs.len() - i,
    {
        proof {
            assert(decreases_to!(xs => xs[i as int]));
        }
        if i > 0 {
            push_char(s, ',');
        }
        render_into(&xs[i], s);
        proof {
            let next = xs@.take(i + 1);
            assert(next.drop_last() =~= xs@.take(i as int));
            if i == 0 {
                assert(xs@.take(0) =~= Seq::<Value>::empty());
            }
            assert(s@ =~= start + rendered_elems(next));
        }
        i = i + 1;
    }
    assert(xs@.take(xs.len() as int) =~= xs@);
}

/// Appends the comma-joined `key value` renderings of `es`.
fn render_entries_into(es: &Vec<(Value, Value)>, s: &mut String)
    ensures
        final(s)@ == old(s)@ + rendered_entries(es@),
    decreases es,
{
    let ghost start = s@;
    let mut i: usize = 0;
    while i < es.len()
        invariant
            i <= es.len(),
            s@ == start + rendered_entries(es@.take(i as int)),
        decreases es.len() - i,
    {
        proof {
            assert(decreases_to!(es => es[i as int]));
            assert(decreases_to!(es => es[i as int].0));
            assert(decreases_to!(es => es[i as int].1));
        }
        if i > 0 {
            push_char(s, ',');
        }
        render_into(&es[i].0, s);
        push_char(s, ' ');
        render_into(&es[i].1, s);
        proof {
            let next = es@.take(i + 1);
            assert(next.drop_last() =~= es@.take(i as int));
            if i == 0 {
                assert(es@.take(0) =~= Seq::<(Value, Value)>::empty());
            }
            assert(s@ =~= start + rendered_entries(next));
        }
        i = i + 1;
    }
    assert(es@.take(es.len() as int) =~= es@);
}

} // verus!
