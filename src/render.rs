use std::fmt::Debug;
use vstd::prelude::*;

verus! {

/// The decimal digit `d`.
pub open spec fn digit_char(d: nat) -> char {
    seq!['0', '1', '2', '3', '4', '5', '6', '7', '8', '9'][d as int]
}

/// The decimal digits of `n`, most significant first, without leading zeros.
pub open spec fn decimal(n: nat) -> Seq<char>
    decreases n,
{
    if n < 10 {
        seq![digit_char(n)]
    } else {
        decimal(n / 10).push(digit_char(n % 10))
    }
}

/// The rendering of entry `i`, whose value renders as `text`: `i: text`.
pub open spec fn entry_text(i: nat, text: Seq<char>) -> Seq<char> {
    decimal(i) + seq![':', ' '] + text
}

/// The renderings of the entries whose values render as `texts`, in order,
/// separated by `, `.
pub open spec fn entries_text(texts: Seq<Seq<char>>) -> Seq<char>
    decreases texts.len(),
{
    if texts.len() == 0 {
        Seq::empty()
    } else if texts.len() == 1 {
        entry_text(0, texts[0])
    } else {
        entries_text(texts.drop_last()) + seq![',', ' '] + entry_text(
            (texts.len() - 1) as nat,
            texts.last(),
        )
    }
}

/// The rendering of a map from identifiers to values that render as
/// `texts`: `{0: a, 1: b}`.
pub open spec fn map_text(texts: Seq<Seq<char>>) -> Seq<char> {
    seq!['{'] + entries_text(texts) + seq!['}']
}

/// Relies on `usize`'s `Display`: decimal digits, no sign, no leading zeros.
#[verifier::external_body]
fn decimal_text(n: usize) -> (r: String)
    ensures
        r@ == decimal(n as nat),
{
    format!("{n}")
}

/// Relies on the value's `Debug` implementation, whose text nothing here
/// constrains.
#[verifier::external_body]
fn debug_text<T: Debug>(v: &T) -> (r: String) {
    format!("{v:?}")
}

/// Renders `values` as a map from identifier to value, in identifier order,
/// each value by its `Debug` text.
pub(crate) fn render_map<T: Debug>(values: &Vec<T>) -> (r: String)
    ensures
        exists|texts: Seq<Seq<char>>| texts.len() == values@.len() && r@ == map_text(texts),
{
    proof {
        reveal_strlit("{");
    }
    let mut out = String::from_str("{");
    let ghost mut texts: Seq<Seq<char>> = Seq::empty();
    let mut i: usize = 0;
    while i < values.len()
        invariant
            0 <= i <= values@.len(),
            texts.len() == i,
            out@ == seq!['{'] + entries_text(texts),
        decreases values@.len() - i,
    {
        let ghost before = out@;
        if i > 0 {
            out.append(", ");
        }
        let ghost sep = out@;
        let idx = decimal_text(i);
        out.append(idx.as_str());
        out.append(": ");
        let t = debug_text(&values[i]);
        out.append(t.as_str());
        proof {
            reveal_strlit(", ");
            reveal_strlit(": ");
            assert(", "@ =~= seq![',', ' ']);
            assert(": "@ =~= seq![':', ' ']);
            assert(out@ =~= sep + entry_text(i as nat, t@));
            let next = texts.push(t@);
            assert(next.drop_last() =~= texts);
            if i == 0 {
                assert(sep == before);
                assert(entries_text(texts) =~= Seq::<char>::empty());
                assert(entries_text(next) == entry_text(0, t@));
            } else {
                assert(sep =~= before + seq![',', ' ']);
                assert(entries_text(next) == entries_text(texts) + seq![',', ' '] + entry_text(
                    i as nat,
                    t@,
                ));
            }
            assert(out@ =~= seq!['{'] + entries_text(next));
            texts = next;
        }
        i = i + 1;
    }
    out.append("}");
    proof {
        reveal_strlit("}");
        assert("}"@ =~= seq!['}']);
        assert(out@ =~= map_text(texts));
    }
    out
}

} // verus!
