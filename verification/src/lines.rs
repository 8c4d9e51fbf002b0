//! Line-oriented parsing of the proxy list: a byte buffer is split at
//! newlines into an ordered sequence of addresses, a trailing carriage
//! return being stripped from each line.
use vstd::prelude::*;

verus! {

/// The newline byte that terminates a record.
pub const NEWLINE: u8 = 10;

/// The carriage-return byte that may precede a newline in the input.
pub const CARRIAGE_RETURN: u8 = 13;

/// A line with a trailing carriage return stripped.
pub open spec fn strip_cr(line: Seq<u8>) -> Seq<u8> {
    if line.len() > 0 && line.last() == CARRIAGE_RETURN {
        line.drop_last()
    } else {
        line
    }
}

/// The index of the first newline in `s`, or `s.len()` if there is none.
pub open spec fn first_newline(s: Seq<u8>) -> int
    decreases s.len(),
{
    if s.len() == 0 {
        0
    } else if s[0] == NEWLINE {
        0
    } else {
        1 + first_newline(s.drop_first())
    }
}

/// The lines of `s`: maximal newline-free runs, each with a trailing
/// carriage return stripped; a final newline opens no empty last line.
pub open spec fn spec_lines(s: Seq<u8>) -> Seq<Seq<u8>>
    decreases s.len(),
{
    if s.len() == 0 {
        Seq::empty()
    } else {
        let k: int = first_newline(s);
        if 0 <= k < s.len() {
            seq![strip_cr(s.take(k))] + spec_lines(s.skip(k + 1))
        } else {
            seq![strip_cr(s)]
        }
    }
}

pub proof fn lemma_first_newline_bounds(s: Seq<u8>)
    ensures
        0 <= first_newline(s) <= s.len(),
        forall|j: int| 0 <= j < first_newline(s) ==> s[j] != NEWLINE,
        first_newline(s) < s.len() ==> s[first_newline(s)] == NEWLINE,
    decreases s.len(),
{
    if s.len() > 0 && s[0] != NEWLINE {
        lemma_first_newline_bounds(s.drop_first());
        assert forall|j: int| 0 <= j < first_newline(s) implies s[j] != NEWLINE by {
            if j > 0 {
                assert(s.drop_first()[j - 1] == s[j]);
            }
        }
    }
}

/// An index below which no newline stands, and at which one stands (or the
/// end is reached), is the first newline.
pub proof fn lemma_first_newline_is(s: Seq<u8>, k: int)
    requires
        0 <= k <= s.len(),
        forall|j: int| 0 <= j < k ==> s[j] != NEWLINE,
        k < s.len() ==> s[k] == NEWLINE,
    ensures
        first_newline(s) == k,
    decreases s.len(),
{
    if s.len() > 0 && s[0] != NEWLINE {
        assert forall|j: int| 0 <= j < k - 1 implies s.drop_first()[j] != NEWLINE by {
            assert(s.drop_first()[j] == s[j + 1]);
        }
        lemma_first_newline_is(s.drop_first(), k - 1);
    }
}

/// Strips one trailing carriage return, in place.
fn strip_cr_exec(line: &mut Vec<u8>)
    ensures
        final(line)@ == strip_cr(old(line)@),
{
    let n = line.len();
    if n > 0 && line[n - 1] == CARRIAGE_RETURN {
        line.pop();
    }
}

/// Splits a byte buffer into its lines, in input order.
pub fn split_lines(input: &Vec<u8>) -> (lines: Vec<Vec<u8>>)
    ensures
        lines.deep_view() == spec_lines(input@),
{
    let ghost whole: Seq<u8> = input@;
    let mut lines: Vec<Vec<u8>> = Vec::new();
    let mut cur: Vec<u8> = Vec::new();
    let mut start: usize = 0;
    let mut i: usize = 0;
    proof {
        assert(whole.skip(0) =~= whole);
        assert(lines.deep_view() + spec_lines(whole) =~~= spec_lines(whole));
    }
    while i < input.len()
        invariant
            whole == input@,
            0 <= start <= i <= input.len(),
            cur@ == whole.subrange(start as int, i as int),
            forall|j: int| start <= j < i ==> whole[j] != NEWLINE,
            spec_lines(whole) == lines.deep_view() + spec_lines(whole.skip(start as int)),
        decreases input.len() - i,
    {
        let b = input[i];
        if b == NEWLINE {
            proof {
                let t = whole.skip(start as int);
                let k: int = i as int - start as int;
                assert forall|j: int| 0 <= j < k implies t[j] != NEWLINE by {
                    assert(t[j] == whole[start + j]);
                }
                assert(t[k] == whole[i as int]);
                lemma_first_newline_is(t, k);
                assert(t.take(k) =~= whole.subrange(start as int, i as int));
                assert(t.skip(k + 1) =~= whole.skip(i + 1));
                assert(spec_lines(t) == seq![strip_cr(cur@)] + spec_lines(whole.skip(i + 1)));
            }
            strip_cr_exec(&mut cur);
            let ghost old_lines = lines.deep_view();
            let ghost line_view = cur@;
            lines.push(cur);
            proof {
                assert(lines.deep_view() =~~= old_lines.push(line_view));
                assert(old_lines + (seq![line_view] + spec_lines(whole.skip(i + 1)))
                    =~= lines.deep_view() + spec_lines(whole.skip(i + 1)));
            }
            cur = Vec::new();
            start = i + 1;
            i = i + 1;
            proof {
                assert(cur@ =~= whole.subrange(start as int, i as int));
            }
        } else {
            cur.push(b);
            i = i + 1;
            proof {
                assert(cur@ =~= whole.subrange(start as int, i as int));
            }
        }
    }
    if start < input.len() {
        proof {
            let t = whole.skip(start as int);
            let k: int = i as int - start as int;
            assert forall|j: int| 0 <= j < k implies t[j] != NEWLINE by {
                assert(t[j] == whole[start + j]);
            }
            lemma_first_newline_is(t, k);
            assert(t =~= whole.subrange(start as int, i as int));
            assert(spec_lines(t) == seq![strip_cr(cur@)]);
        }
        strip_cr_exec(&mut cur);
        let ghost old_lines = lines.deep_view();
        let ghost line_view = cur@;
        lines.push(cur);
        proof {
            assert(lines.deep_view() =~~= old_lines.push(line_view));
            assert(old_lines + seq![line_view] =~= lines.deep_view());
        }
    } else {
        proof {
            assert(whole.skip(start as int) =~= Seq::<u8>::empty());
            assert(lines.deep_view() + spec_lines(whole.skip(start as int)) =~= lines.deep_view());
        }
    }
    lines
}

/// No line that the splitter yields contains a newline byte.
pub proof fn lemma_lines_newline_free(s: Seq<u8>)
    ensures
        forall|i: int|
            0 <= i < spec_lines(s).len() ==> !(#[trigger] spec_lines(s)[i]).contains(NEWLINE),
    decreases s.len(),
{
    if s.len() > 0 {
        lemma_first_newline_bounds(s);
        let k: int = first_newline(s);
        if k == s.len() {
            assert forall|j: int| 0 <= j < strip_cr(s).len() implies strip_cr(s)[j] != NEWLINE by {
                assert(strip_cr(s)[j] == s[j]);
            }
            assert(!spec_lines(s)[0].contains(NEWLINE));
        } else {
            lemma_lines_newline_free(s.skip(k + 1));
            let head = strip_cr(s.take(k));
            assert forall|j: int| 0 <= j < head.len() implies head[j] != NEWLINE by {
                assert(head[j] == s[j]);
            }
            assert(!head.contains(NEWLINE));
            assert forall|i: int| 0 <= i < spec_lines(s).len() implies !(
            #[trigger] spec_lines(s)[i]).contains(NEWLINE) by {
                if i > 0 {
                    assert(spec_lines(s)[i] == spec_lines(s.skip(k + 1))[i - 1]);
                }
            }
        }
    }
}

} // verus!
