//! The textual rendering of syntax/value nodes, exactly as the golden
//! output format demands: numbers in decimal, strings re-quoted, quoted
//! atoms behind `#`, calls in `( )` and lists in `[ ]` with single spaces
//! between items.

use vstd::prelude::*;

use crate::ast::Atom;
use crate::ast::AtomModel;
use crate::ast::Elem;
use crate::ast::ElemModel;
use crate::ast::view_items;

verus! {

/// The decimal digit character for `d`.
pub open spec fn digit_char(d: int) -> char {
    if d == 0 {
        '0'
    } else if d == 1 {
        '1'
    } else if d == 2 {
        '2'
    } else if d == 3 {
        '3'
    } else if d == 4 {
        '4'
    } else if d == 5 {
        '5'
    } else if d == 6 {
        '6'
    } else if d == 7 {
        '7'
    } else if d == 8 {
        '8'
    } else {
        '9'
    }
}

/// The decimal digits of `n`, most significant first, no leading zeroes
/// (except for `n == 0` itself).
pub open spec fn dec_digits(n: nat) -> Seq<char>
    decreases n,
{
    if n < 10 {
        seq![digit_char(n as int)]
    } else {
        dec_digits(n / 10) + seq![digit_char((n % 10) as int)]
    }
}

/// The decimal rendering of a signed number.
pub open spec fn print_number(n: i64) -> Seq<char> {
    if n < 0 {
        seq!['-'] + dec_digits((-n) as nat)
    } else {
        dec_digits(n as nat)
    }
}

/// The rendering of a leaf payload.
pub open spec fn print_atom(a: AtomModel) -> Seq<char> {
    match a {
        AtomModel::Symbol(s) => s,
        AtomModel::Text(s) => seq!['"'] + s + seq!['"'],
        AtomModel::Number(n) => print_number(n),
    }
}

/// The rendering of a node.
pub open spec fn print_elem(e: ElemModel) -> Seq<char>
    decreases e,
{
    if e is Atom {
        print_atom(e->Atom_0)
    } else if e is Single {
        seq!['#'] + print_atom(e->Single_0)
    } else if e is Call {
        seq!['('] + print_list(e->Call_0) + seq![')']
    } else {
        seq!['['] + print_list(e->List_0) + seq![']']
    }
}

/// The renderings of the items, joined by single spaces.
pub open spec fn print_list(items: Seq<ElemModel>) -> Seq<char>
    decreases items,
{
    if items.len() == 0 {
        Seq::empty()
    } else if items.len() == 1 {
        print_elem(items[0])
    } else {
        print_elem(items[0]) + seq![' '] + print_list(items.subrange(1, items.len() as int))
    }
}

/// Relies on `String::push`: appends the character to the end of the
/// string.
#[verifier::external_body]
pub(crate) fn push_char(out: &mut String, c: char)
    ensures
        final(out)@ == old(out)@.push(c),
{
    out.push(c);
}

/// Appends one decimal digit.
fn write_digit(d: u64, out: &mut String)
    requires
        d < 10,
    ensures
        final(out)@ == old(out)@ + seq![digit_char(d as int)],
{
    let c: char = if d == 0 {
        '0'
    } else if d == 1 {
        '1'
    } else if d == 2 {
        '2'
    } else if d == 3 {
        '3'
    } else if d == 4 {
        '4'
    } else if d == 5 {
        '5'
    } else if d == 6 {
        '6'
    } else if d == 7 {
        '7'
    } else if d == 8 {
        '8'
    } else {
        '9'
    };
    push_char(out, c);
    proof {
        assert(out@ =~= old(out)@ + seq![digit_char(d as int)]);
    }
}

/// Appends the decimal digits of a magnitude.
fn write_digits(m: u64, out: &mut String)
    ensures
        final(out)@ == old(out)@ + dec_digits(m as nat),
    decreases m,
{
    if m < 10 {
        write_digit(m, out);
    } else {
        write_digits(m / 10, out);
        write_digit(m % 10, out);
        proof {
            assert(out@ =~= old(out)@ + dec_digits(m as nat));
        }
    }
}

/// Appends the decimal rendering of a signed number.
fn write_number(n: i64, out: &mut String)
    ensures
        final(out)@ == old(out)@ + print_number(n),
{
    if n < 0 {
        push_char(out, '-');
        let wide: i128 = n as i128;
        let mag: u64 = (-wide) as u64;
        write_digits(mag, out);
        proof {
            assert(out@ =~= old(out)@ + print_number(n));
        }
    } else {
        let mag: u64 = n as u64;
        write_digits(mag, out);
    }
}

/// Appends every character of a string.
fn write_text(s: &String, out: &mut String)
    ensures
        final(out)@ == old(out)@ + s@,
{
    out.append(s.as_str());
}

/// Appends the rendering of a leaf payload.
fn write_atom(a: &Atom, out: &mut String)
    ensures
        final(out)@ == old(out)@ + print_atom(a.view()),
{
    match a {
        Atom::Symbol(s) => write_text(s, out),
        Atom::String(s) => {
            push_char(out, '"');
            write_text(s, out);
            push_char(out, '"');
            proof {
                assert(out@ =~= old(out)@ + print_atom(a.view()));
            }
        },
        Atom::Number(n) => write_number(*n, out),
    }
}

/// Appends the rendering of a node.
fn write_elem(e: &Elem, out: &mut String)
    ensures
        final(out)@ == old(out)@ + print_elem(e.view()),
    decreases e, 0int,
{
    match e {
        Elem::Atom(a) => write_atom(a, out),
        Elem::Single(a) => {
            push_char(out, '#');
            write_atom(a, out);
            proof {
                assert(out@ =~= old(out)@ + print_elem(e.view()));
            }
        },
        Elem::Call(items) => {
            push_char(out, '(');
            write_list(items, 0, out);
            push_char(out, ')');
            proof {
                crate::ast::lemma_view_items(items@);
                assert(view_items(items@).subrange(0, items@.len() as int) =~= view_items(items@));
                assert(out@ =~= old(out)@ + print_elem(e.view()));
            }
        },
        Elem::List(items) => {
            push_char(out, '[');
            write_list(items, 0, out);
            push_char(out, ']');
            proof {
                crate::ast::lemma_view_items(items@);
                assert(view_items(items@).subrange(0, items@.len() as int) =~= view_items(items@));
                assert(out@ =~= old(out)@ + print_elem(e.view()));
            }
        },
    }
}

/// Appends the renderings of the items from position `k` on, joined by
/// single spaces.
fn write_list(items: &Vec<Elem>, k: usize, out: &mut String)
    requires
        k <= items@.len(),
    ensures
        final(out)@ == old(out)@ + print_list(view_items(items@).subrange(
            k as int,
            items@.len() as int,
        )),
    decreases items, items@.len() as int + 1 - k,
{
    proof {
        crate::ast::lemma_view_items(items@);
    }
    let ghost whole = view_items(items@);
    let ghost rest = whole.subrange(k as int, items@.len() as int);
    if k >= items.len() {
        proof {
            assert(rest =~= Seq::<ElemModel>::empty());
        }
        return ;
    }
    write_elem(&items[k], out);
    if k + 1 < items.len() {
        push_char(out, ' ');
        write_list(items, k + 1, out);
        proof {
            assert(rest.subrange(1, rest.len() as int) =~= whole.subrange(
                k + 1,
                items@.len() as int,
            ));
            assert(out@ =~= old(out)@ + print_list(rest));
        }
    } else {
        proof {
            assert(rest =~= seq![whole[k as int]]);
            assert(out@ =~= old(out)@ + print_list(rest));
        }
    }
}

impl Elem {
    /// The printed form of the node.
    pub fn to_text(&self) -> (r: String)
        ensures
            r@ == print_elem(self.view()),
    {
        let mut out = String::new();
        write_elem(self, &mut out);
        out
    }
}

} // verus!
