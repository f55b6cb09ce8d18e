//! Diagnostic rendering: a depth-indented, right-subtree-first, then-value,
//! then-left-subtree textual dump. The exact formatting is for human eyes
//! only and is not part of any contract.

use vstd::prelude::*;
use vstd::string::StringExecFns;

use crate::tree::BST;

verus! {

/// The character for one decimal digit.
pub open spec fn digit_char(d: nat) -> char
    recommends
        d < 10,
{
    if d == 0 {
        '0'
    } else if d == 1 {
        '1'
    } else if d == 2 {
        '2'
    } else if d == 3 {
        '3'
    } else if d == 4 {
        '4'
    } else if d == 5 {
        '5'
    } else if d == 6 {
        '6'
    } else if d == 7 {
        '7'
    } else if d == 8 {
        '8'
    } else {
        '9'
    }
}

/// The decimal digits of `n`, most significant first, without leading zeros
/// (a single zero digit for zero itself).
pub open spec fn spec_decimal(n: nat) -> Seq<char>
    decreases n,
{
    if n < 10 {
        seq![digit_char(n)]
    } else {
        spec_decimal(n / 10).push(digit_char(n % 10))
    }
}

/// The string for one decimal digit.
fn digit_str(d: u64) -> (r: &'static str)
    requires
        d < 10,
    ensures
        r@ == seq![digit_char(d as nat)],
{
    proof {
        reveal_strlit("0");
        reveal_strlit("1");
        reveal_strlit("2");
        reveal_strlit("3");
        reveal_strlit("4");
        reveal_strlit("5");
        reveal_strlit("6");
        reveal_strlit("7");
        reveal_strlit("8");
        reveal_strlit("9");
    }
    if d == 0 {
        "0"
    } else if d == 1 {
        "1"
    } else if d == 2 {
        "2"
    } else if d == 3 {
        "3"
    } else if d == 4 {
        "4"
    } else if d == 5 {
        "5"
    } else if d == 6 {
        "6"
    } else if d == 7 {
        "7"
    } else if d == 8 {
        "8"
    } else {
        "9"
    }
}

/// Appends the decimal rendering of `v` to `out`.
fn push_decimal(out: &mut String, v: u64)
    ensures
        final(out)@ == old(out)@ + spec_decimal(v as nat),
    decreases v,
{
    if v < 10 {
        let d = digit_str(v);
        out.append(d);
        proof {
            assert((*out)@ =~= old(out)@ + spec_decimal(v as nat));
        }
    } else {
        push_decimal(out, v / 10);
        let d = digit_str(v % 10);
        out.append(d);
        proof {
            assert((*out)@ =~= old(out)@ + spec_decimal(v as nat));
        }
    }
}

/// Appends the dump of one subtree at the given indentation depth: first the
/// right subtree one level deeper, then the indentation and the value, then
/// the left subtree one level deeper.
fn render_rec(t: &BST, depth: usize, out: &mut String)
    requires
        depth + t.height() <= usize::MAX,
    decreases *t,
{
    match t {
        BST::Empty => {},
        BST::Node { left, value, right } => {
            render_rec(right, depth + 1, out);
            let mut i: usize = 0;
            while i < depth
                invariant
                    i <= depth,
                decreases depth - i,
            {
                out.append("---");
                i = i + 1;
            }
            push_decimal(out, *value);
            out.append("\n");
            render_rec(left, depth + 1, out);
        },
    }
}

impl BST {
    /// Renders the tree as a depth-indented, right-subtree-first diagnostic
    /// dump, one value per line. The exact formatting carries no contract.
    pub fn render(&self) -> String
        requires
            self.height() <= usize::MAX,
    {
        let mut out = String::new();
        out.append("\n");
        render_rec(self, 0, &mut out);
        out
    }
}

} // verus!
