//! A sample application: rows of click counters.
use vstd::prelude::*;
use vstd::string::StringExecFns;
use crate::host::Listener;
use crate::vdom::{attrs_view, AttrEntry, Attr, AttrV, VDom};

verus! {

broadcast use vstd::std_specs::vec::group_vec_axioms;

/// The character of a decimal digit.
pub open spec fn digit_char(d: nat) -> char {
    if d == 0 { '0' }
    else if d == 1 { '1' }
    else if d == 2 { '2' }
    else if d == 3 { '3' }
    else if d == 4 { '4' }
    else if d == 5 { '5' }
    else if d == 6 { '6' }
    else if d == 7 { '7' }
    else if d == 8 { '8' }
    else { '9' }
}

/// The decimal digits of `n`, most significant first, without leading zeros.
pub open spec fn digits(n: nat) -> Seq<char>
    decreases n,
{
    if n < 10 {
        seq![digit_char(n)]
    } else {
        digits(n / 10).push(digit_char(n % 10))
    }
}

/// The decimal text of `n`, with a leading minus sign where it is negative.
pub open spec fn decimal(n: int) -> Seq<char> {
    if n < 0 {
        seq!['-'] + digits((-n) as nat)
    } else {
        digits(n as nat)
    }
}

/// The text that a counter shows.
pub open spec fn count_label(count: int) -> Seq<char> {
    seq!['C', 'o', 'u', 'n', 't', ':', ' '] + decimal(count)
}

/// `d` is a counter: a `div` holding a `button` that calls `listener` on
/// `click` and shows the count.
pub open spec fn is_counter(d: VDom, count: int, listener: Listener) -> bool {
    match d {
        VDom::Elem { name, attrs, children } => {
            &&& name@ == seq!['d', 'i', 'v']
            &&& attrs@.len() == 0
            &&& children@.len() == 1
            &&& match children@[0] {
                VDom::Elem { name: b, attrs: ba, children: bc } => {
                    &&& b@ == seq!['b', 'u', 't', 't', 'o', 'n']
                    &&& attrs_view(ba@) == seq![
                        (seq!['c', 'l', 'i', 'c', 'k'], AttrV::Handler(listener.id as nat)),
                    ]
                    &&& bc@.len() == 1
                    &&& match bc@[0] {
                        VDom::Text { text } => text@ == count_label(count),
                        _ => false,
                    }
                },
                _ => false,
            }
        },
        _ => false,
    }
}

/// The one-digit text of `d`.
fn digit_str(d: u32) -> (r: &'static str)
    requires
        d < 10,
    ensures
        r@ == seq![digit_char(d as nat)],
{
    proof {
        reveal_strlit("0");
        reveal_strlit("1");
        reveal_strlit("2");
        reveal_strlit("3");
        reveal_strlit("4");
        reveal_strlit("5");
        reveal_strlit("6");
        reveal_strlit("7");
        reveal_strlit("8");
        reveal_strlit("9");
    }
    if d == 0 { "0" }
    else if d == 1 { "1" }
    else if d == 2 { "2" }
    else if d == 3 { "3" }
    else if d == 4 { "4" }
    else if d == 5 { "5" }
    else if d == 6 { "6" }
    else if d == 7 { "7" }
    else if d == 8 { "8" }
    else { "9" }
}

/// Appends the decimal digits of `n` to `s`.
fn push_digits(s: &mut String, n: u32)
    ensures
        final(s)@ == old(s)@ + digits(n as nat),
    decreases n,
{
    if n >= 10 {
        push_digits(s, n / 10);
    }
    s.append(digit_str(n % 10));
    assert(final(s)@ =~= old(s)@ + digits(n as nat));
}

/// The decimal text of `n`.
pub fn decimal_text(n: i32) -> (r: String)
    ensures
        r@ == decimal(n as int),
{
    let mut s = String::new();
    if n < 0 {
        proof {
            reveal_strlit("-");
        }
        s.append("-");
        let m: u32 = (-(n as i64)) as u32;
        push_digits(&mut s, m);
    } else {
        push_digits(&mut s, n as u32);
    }
    assert(s@ =~= decimal(n as int));
    s
}

/// A counter showing `count`, whose button calls `listener` when clicked.
pub fn counter(count: i32, listener: Listener) -> (r: VDom)
    ensures
        is_counter(r, count as int, listener),
{
    proof {
        reveal_strlit("Count: ");
        reveal_strlit("div");
        reveal_strlit("button");
        reveal_strlit("click");
    }
    let mut label = String::from_str("Count: ");
    label.append(decimal_text(count).as_str());
    let text = VDom::Text { text: label };
    let click = AttrEntry { key: String::from_str("click"), value: Attr::EventHandler(listener) };
    assert(click.key@ == seq!['c', 'l', 'i', 'c', 'k']);
    let mut button_attrs: Vec<AttrEntry> = Vec::new();
    button_attrs.push(click);
    let mut button_children: Vec<VDom> = Vec::new();
    button_children.push(text);
    let button_name = String::from_str("button");
    assert(button_name@ == seq!['b', 'u', 't', 't', 'o', 'n']);
    let button = VDom::Elem {
        name: button_name,
        attrs: button_attrs,
        children: button_children,
    };
    let mut children: Vec<VDom> = Vec::new();
    children.push(button);
    let div_name = String::from_str("div");
    assert(div_name@ == seq!['d', 'i', 'v']);
    let r = VDom::Elem { name: div_name, attrs: Vec::new(), children };
    assert(label@ =~= count_label(count as int));
    assert(attrs_view(button_attrs@) =~= seq![
        (seq!['c', 'l', 'i', 'c', 'k'], AttrV::Handler(listener.id as nat)),
    ]);
    r
}

/// A `div` holding `n` counters, each showing `count` and calling
/// `listener` when clicked.
pub fn many_counter(n: u32, count: i32, listener: Listener) -> (r: VDom)
    ensures
        match r {
            VDom::Elem { name, attrs, children } => {
                &&& name@ == seq!['d', 'i', 'v']
                &&& attrs@.len() == 0
                &&& children@.len() == n
                &&& forall|i: int|
                    0 <= i < n ==> is_counter(#[trigger] children@[i], count as int, listener)
            },
            _ => false,
        },
{
    let mut counters: Vec<VDom> = Vec::new();
    let mut i: u32 = 0;
    while i < n
        invariant
            i <= n,
            counters@.len() == i,
            forall|j: int|
                0 <= j < i ==> is_counter(#[trigger] counters@[j], count as int, listener),
        decreases n - i,
    {
        counters.push(counter(count, listener));
        i = i + 1;
    }
    proof {
        reveal_strlit("div");
    }
    VDom::Elem { name: String::from_str("div"), attrs: Vec::new(), children: counters }
}

/// Returns the one-shot callback it is given, unchanged: a place to pin
/// down the callback's type.
pub fn annotate<F: FnOnce()>(f: F) -> (r: F)
    ensures
        r == f,
{
    f
}

} // verus!
