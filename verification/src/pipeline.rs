//! Aggregation of probe results into the output: which addresses are
//! recorded, how they are rendered as newline-terminated records, and the
//! laws that tie the output to the probe outcomes.
use vstd::prelude::*;

use crate::lines::{spec_lines, strip_cr, lemma_first_newline_is, NEWLINE,
    CARRIAGE_RETURN};

verus! {

/// One record of the output: the address followed by a newline.
pub open spec fn record_bytes(addr: Seq<u8>) -> Seq<u8> {
    addr + seq![NEWLINE]
}

/// The whole output for a sequence of recorded addresses, in record order.
pub open spec fn output_bytes(records: Seq<Seq<u8>>) -> Seq<u8>
    decreases records.len(),
{
    if records.len() == 0 {
        Seq::empty()
    } else {
        record_bytes(records[0]) + output_bytes(records.drop_first())
    }
}

/// The addresses that the run records, in task order: those whose probe
/// succeeded and whose write to the sink succeeded.
pub open spec fn recorded_addresses(addrs: Seq<Seq<u8>>, probed: Seq<bool>, written: Seq<bool>) -> Seq<
    Seq<u8>,
>
    decreases addrs.len(),
{
    if addrs.len() == 0 {
        Seq::empty()
    } else {
        let rest = recorded_addresses(addrs.drop_first(), probed.drop_first(), written.drop_first());
        if probed[0] && written[0] {
            seq![addrs[0]] + rest
        } else {
            rest
        }
    }
}

/// How often `a` occurs in `s`.
pub open spec fn occurrences(s: Seq<Seq<u8>>, a: Seq<u8>) -> nat
    decreases s.len(),
{
    if s.len() == 0 {
        0
    } else {
        (if s[0] == a {
            1nat
        } else {
            0nat
        }) + occurrences(s.drop_first(), a)
    }
}

/// How many tasks probe `a` successfully and record it: indices where the
/// address is `a`, the probe succeeded and the sink write succeeded.
pub open spec fn successful_occurrences(
    addrs: Seq<Seq<u8>>,
    probed: Seq<bool>,
    written: Seq<bool>,
    a: Seq<u8>,
) -> nat
    decreases addrs.len(),
{
    if addrs.len() == 0 {
        0
    } else {
        (if addrs[0] == a && probed[0] && written[0] {
            1nat
        } else {
            0nat
        }) + successful_occurrences(addrs.drop_first(), probed.drop_first(), written.drop_first(), a)
    }
}

/// An address stands in the output as often as a task for it succeeded:
/// each successful probe of it is recorded exactly once, and no failing
/// one adds an occurrence.
pub proof fn lemma_output_multiplicity(
    addrs: Seq<Seq<u8>>,
    probed: Seq<bool>,
    written: Seq<bool>,
    a: Seq<u8>,
)
    requires
        probed.len() == addrs.len(),
        written.len() == addrs.len(),
    ensures
        occurrences(recorded_addresses(addrs, probed, written), a) == successful_occurrences(
            addrs,
            probed,
            written,
            a,
        ),
    decreases addrs.len(),
{
    if addrs.len() > 0 {
        lemma_output_multiplicity(addrs.drop_first(), probed.drop_first(), written.drop_first(), a);
        if probed[0] && written[0] {
            let rest = recorded_addresses(
                addrs.drop_first(),
                probed.drop_first(),
                written.drop_first(),
            );
            let whole = seq![addrs[0]] + rest;
            assert(whole[0] == addrs[0]);
            assert(whole.drop_first() =~= rest);
        }
    }
}

/// An address stands in the output if and only if some task for it both
/// reached the target and recorded it; one that fails everywhere it
/// appears never reaches the output.
pub proof fn lemma_output_membership(
    addrs: Seq<Seq<u8>>,
    probed: Seq<bool>,
    written: Seq<bool>,
    a: Seq<u8>,
)
    requires
        probed.len() == addrs.len(),
        written.len() == addrs.len(),
    ensures
        recorded_addresses(addrs, probed, written).contains(a) <==> exists|i: int|
            0 <= i < addrs.len() && addrs[i] == a && probed[i] && written[i],
    decreases addrs.len(),
{
    if addrs.len() > 0 {
        let rest = recorded_addresses(addrs.drop_first(), probed.drop_first(), written.drop_first());
        lemma_output_membership(addrs.drop_first(), probed.drop_first(), written.drop_first(), a);
        if probed[0] && written[0] {
            let whole = seq![addrs[0]] + rest;
            assert(whole[0] == addrs[0]);
            assert(whole.drop_first() =~= rest);
            if whole.contains(a) {
                let i: int = choose|i: int| 0 <= i < whole.len() && whole[i] == a;
                if i == 0 {
                    assert(addrs[0] == a && probed[0] && written[0]);
                } else {
                    assert(rest[i - 1] == a);
                    let j: int = choose|j: int|
                        0 <= j < addrs.drop_first().len() && addrs.drop_first()[j] == a
                            && probed.drop_first()[j] && written.drop_first()[j];
                    assert(addrs[j + 1] == a && probed[j + 1] && written[j + 1]);
                }
            }
            if exists|i: int| 0 <= i < addrs.len() && addrs[i] == a && probed[i] && written[i] {
                let i: int = choose|i: int|
                    0 <= i < addrs.len() && addrs[i] == a && probed[i] && written[i];
                if i == 0 {
                    assert(whole[0] == a);
                } else {
                    assert(addrs.drop_first()[i - 1] == a && probed.drop_first()[i - 1]
                        && written.drop_first()[i - 1]);
                    let j: int = choose|j: int| 0 <= j < rest.len() && rest[j] == a;
                    assert(whole[j + 1] == a);
                }
            }
        } else {
            if rest.contains(a) {
                let j: int = choose|j: int|
                    0 <= j < addrs.drop_first().len() && addrs.drop_first()[j] == a
                        && probed.drop_first()[j] && written.drop_first()[j];
                assert(addrs[j + 1] == a && probed[j + 1] && written[j + 1]);
            }
            if exists|i: int| 0 <= i < addrs.len() && addrs[i] == a && probed[i] && written[i] {
                let i: int = choose|i: int|
                    0 <= i < addrs.len() && addrs[i] == a && probed[i] && written[i];
                assert(i != 0);
                assert(addrs.drop_first()[i - 1] == a && probed.drop_first()[i - 1]
                    && written.drop_first()[i - 1]);
            }
        }
    }
}

/// The output is a whole number of records: split back at newlines, it
/// yields exactly the recorded addresses. No record is partial, none is
/// split, none runs into its neighbour.
pub proof fn lemma_output_lines_round_trip(records: Seq<Seq<u8>>)
    requires
        forall|i: int| 0 <= i < records.len() ==> !(#[trigger] records[i]).contains(NEWLINE),
        forall|i: int|
            0 <= i < records.len() ==> ((#[trigger] records[i]).len() == 0 || records[i].last()
                != CARRIAGE_RETURN),
    ensures
        spec_lines(output_bytes(records)) == records,
    decreases records.len(),
{
    if records.len() > 0 {
        let r0 = records[0];
        let out = output_bytes(records);
        let rest = output_bytes(records.drop_first());
        let k: int = r0.len() as int;
        assert forall|j: int| 0 <= j < k implies out[j] != NEWLINE by {
            assert(out[j] == record_bytes(r0)[j]);
            assert(record_bytes(r0)[j] == r0[j]);
            assert(!r0.contains(NEWLINE));
        }
        assert(out[k] == record_bytes(r0)[k]);
        assert(out[k] == NEWLINE);
        lemma_first_newline_is(out, k);
        assert(out.take(k) =~= r0);
        assert(strip_cr(r0) == r0);
        assert(out.skip(k + 1) =~= rest);
        assert(forall|i: int|
            0 <= i < records.drop_first().len() ==> records.drop_first()[i] == records[i + 1]);
        lemma_output_lines_round_trip(records.drop_first());
        assert(spec_lines(out) == seq![r0] + records.drop_first());
        assert(seq![r0] + records.drop_first() =~= records);
    }
}

/// A non-empty output ends with a newline: the last record is complete.
pub proof fn lemma_output_ends_in_newline(records: Seq<Seq<u8>>)
    requires
        records.len() > 0,
    ensures
        output_bytes(records).len() > 0,
        output_bytes(records).last() == NEWLINE,
    decreases records.len(),
{
    let out = output_bytes(records);
    let head = record_bytes(records[0]);
    if records.len() == 1 {
        assert(output_bytes(records.drop_first()) =~= Seq::<u8>::empty());
        assert(out =~= head);
        assert(head.last() == NEWLINE);
    } else {
        lemma_output_ends_in_newline(records.drop_first());
        let rest = output_bytes(records.drop_first());
        assert(out.last() == rest.last());
    }
}

/// A by-value copy of one address.
pub(crate) fn copy_bytes(addr: &Vec<u8>) -> (r: Vec<u8>)
    ensures
        r@ == addr@,
{
    let mut r: Vec<u8> = Vec::new();
    let mut i: usize = 0;
    while i < addr.len()
        invariant
            0 <= i <= addr.len(),
            r@ == addr@.take(i as int),
        decreases addr.len() - i,
    {
        r.push(addr[i]);
        i = i + 1;
        proof {
            assert(r@ =~= addr@.take(i as int));
        }
    }
    proof {
        assert(r@ =~= addr@);
    }
    r
}

/// Renders one address as a complete, newline-terminated record.
pub fn encode_record(addr: &Vec<u8>) -> (rec: Vec<u8>)
    ensures
        rec@ == record_bytes(addr@),
{
    let mut rec = copy_bytes(addr);
    rec.push(NEWLINE);
    proof {
        assert(rec@ =~= record_bytes(addr@));
    }
    rec
}

/// `output_bytes` grows record by record at the back.
pub proof fn lemma_output_bytes_push(records: Seq<Seq<u8>>, r: Seq<u8>)
    ensures
        output_bytes(records.push(r)) == output_bytes(records) + record_bytes(r),
    decreases records.len(),
{
    if records.len() == 0 {
        let one = records.push(r);
        assert(one.len() == 1);
        assert(one[0] == r);
        assert(one.drop_first() =~= Seq::<Seq<u8>>::empty());
        assert(output_bytes(one.drop_first()) == Seq::<u8>::empty());
        assert(output_bytes(one) == record_bytes(one[0]) + output_bytes(one.drop_first()));
        assert(output_bytes(one) =~= record_bytes(r));
        assert(output_bytes(records) == Seq::<u8>::empty());
        assert(output_bytes(records) + record_bytes(r) =~= record_bytes(r));
    } else {
        assert(records.push(r).drop_first() =~= records.drop_first().push(r));
        lemma_output_bytes_push(records.drop_first(), r);
        assert(records.push(r)[0] == records[0]);
        assert(output_bytes(records.push(r)) == record_bytes(records[0]) + (output_bytes(
            records.drop_first(),
        ) + record_bytes(r)));
        assert(record_bytes(records[0]) + (output_bytes(records.drop_first()) + record_bytes(r))
            =~= output_bytes(records) + record_bytes(r));
    }
}

/// `recorded_addresses` grows task by task at the back.
pub proof fn lemma_recorded_push(
    addrs: Seq<Seq<u8>>,
    probed: Seq<bool>,
    written: Seq<bool>,
    a: Seq<u8>,
    p: bool,
    w: bool,
)
    requires
        probed.len() == addrs.len(),
        written.len() == addrs.len(),
    ensures
        recorded_addresses(addrs.push(a), probed.push(p), written.push(w)) == if p && w {
            recorded_addresses(addrs, probed, written).push(a)
        } else {
            recorded_addresses(addrs, probed, written)
        },
    decreases addrs.len(),
{
    let whole = recorded_addresses(addrs.push(a), probed.push(p), written.push(w));
    if addrs.len() == 0 {
        assert(addrs.push(a).drop_first() =~= Seq::<Seq<u8>>::empty());
        assert(probed.push(p).drop_first() =~= Seq::<bool>::empty());
        assert(written.push(w).drop_first() =~= Seq::<bool>::empty());
        assert(addrs.push(a)[0] == a && probed.push(p)[0] == p && written.push(w)[0] == w);
        let rest = recorded_addresses(
            addrs.push(a).drop_first(),
            probed.push(p).drop_first(),
            written.push(w).drop_first(),
        );
        assert(rest.len() == 0);
        assert(recorded_addresses(addrs, probed, written) == Seq::<Seq<u8>>::empty());
        if p && w {
            assert(whole == seq![a] + rest);
            assert(whole =~= recorded_addresses(addrs, probed, written).push(a));
        } else {
            assert(whole == rest);
            assert(whole =~= recorded_addresses(addrs, probed, written));
        }
    } else {
        assert(addrs.push(a).drop_first() =~= addrs.drop_first().push(a));
        assert(probed.push(p).drop_first() =~= probed.drop_first().push(p));
        assert(written.push(w).drop_first() =~= written.drop_first().push(w));
        lemma_recorded_push(addrs.drop_first(), probed.drop_first(), written.drop_first(), a, p, w);
        assert(addrs.push(a)[0] == addrs[0] && probed.push(p)[0] == probed[0] && written.push(
            w,
        )[0] == written[0]);
        let rest = recorded_addresses(addrs.drop_first(), probed.drop_first(), written.drop_first());
        if probed[0] && written[0] {
            if p && w {
                assert(whole == seq![addrs[0]] + rest.push(a));
                assert(seq![addrs[0]] + rest.push(a) =~= (seq![addrs[0]] + rest).push(a));
            }
        }
    }
}

/// The addresses the run records, computed in task order from the probe
/// and write outcomes of each task.
pub fn collect_recorded(addrs: &Vec<Vec<u8>>, probed: &Vec<bool>, written: &Vec<bool>) -> (out: Vec<
    Vec<u8>,
>)
    requires
        probed@.len() == addrs@.len(),
        written@.len() == addrs@.len(),
    ensures
        out.deep_view() == recorded_addresses(addrs.deep_view(), probed@, written@),
{
    let mut out: Vec<Vec<u8>> = Vec::new();
    let mut i: usize = 0;
    while i < addrs.len()
        invariant
            probed@.len() == addrs@.len(),
            written@.len() == addrs@.len(),
            0 <= i <= addrs@.len(),
            out.deep_view() == recorded_addresses(
                addrs.deep_view().take(i as int),
                probed@.take(i as int),
                written@.take(i as int),
            ),
        decreases addrs.len() - i,
    {
        let ghost pre = out.deep_view();
        if probed[i] && written[i] {
            let a = copy_bytes(&addrs[i]);
            proof {
                assert(addrs.deep_view()[i as int] =~= addrs@[i as int]@);
            }
            out.push(a);
            proof {
                assert(out.deep_view() =~~= pre.push(addrs.deep_view()[i as int]));
            }
        }
        proof {
            lemma_recorded_push(
                addrs.deep_view().take(i as int),
                probed@.take(i as int),
                written@.take(i as int),
                addrs.deep_view()[i as int],
                probed@[i as int],
                written@[i as int],
            );
            assert(addrs.deep_view().take(i as int).push(addrs.deep_view()[i as int])
                =~= addrs.deep_view().take(i + 1));
            assert(probed@.take(i as int).push(probed@[i as int]) =~= probed@.take(i + 1));
            assert(written@.take(i as int).push(written@[i as int]) =~= written@.take(i + 1));
        }
        i = i + 1;
    }
    proof {
        assert(addrs.deep_view().take(i as int) =~= addrs.deep_view());
        assert(probed@.take(i as int) =~= probed@);
        assert(written@.take(i as int) =~= written@);
    }
    out
}

/// Renders the recorded addresses as the output file's bytes: one
/// newline-terminated record per address, in record order.
pub fn render_output(records: &Vec<Vec<u8>>) -> (out: Vec<u8>)
    ensures
        out@ == output_bytes(records.deep_view()),
{
    let mut out: Vec<u8> = Vec::new();
    let mut i: usize = 0;
    while i < records.len()
        invariant
            0 <= i <= records@.len(),
            out@ == output_bytes(records.deep_view().take(i as int)),
        decreases records.len() - i,
    {
        let mut rec = encode_record(&records[i]);
        let ghost pre = out@;
        out.append(&mut rec);
        proof {
            lemma_output_bytes_push(
                records.deep_view().take(i as int),
                records.deep_view()[i as int],
            );
            assert(records.deep_view().take(i as int).push(records.deep_view()[i as int])
                =~= records.deep_view().take(i + 1));
            assert(out@ =~= output_bytes(records.deep_view().take(i + 1)));
        }
        i = i + 1;
    }
    proof {
        assert(records.deep_view().take(i as int) =~= records.deep_view());
    }
    out
}

/// The whole run on a static input, as one pure function: the output file's
/// bytes for given addresses, probe outcomes and sink-write outcomes. Two
/// runs over the same input and outcomes yield byte-identical output.
pub fn run_static(addrs: &Vec<Vec<u8>>, probed: &Vec<bool>, written: &Vec<bool>) -> (out: Vec<u8>)
    requires
        probed@.len() == addrs@.len(),
        written@.len() == addrs@.len(),
    ensures
        out@ == output_bytes(recorded_addresses(addrs.deep_view(), probed@, written@)),
{
    let records = collect_recorded(addrs, probed, written);
    render_output(&records)
}

/// The whole run from the raw input file: its bytes are split into one
/// address per line, and the output holds one record per address whose
/// probe and sink write both succeeded, in task order.
pub fn run_from_input(raw: &Vec<u8>, probed: &Vec<bool>, written: &Vec<bool>) -> (out: Vec<u8>)
    requires
        probed@.len() == spec_lines(raw@).len(),
        written@.len() == spec_lines(raw@).len(),
    ensures
        out@ == output_bytes(recorded_addresses(spec_lines(raw@), probed@, written@)),
{
    let addrs = crate::lines::split_lines(raw);
    proof {
        assert(addrs@.len() == addrs.deep_view().len());
    }
    run_static(&addrs, probed, written)
}

/// The pipeline end to end: in the rendered output file, an address stands
/// as one complete line exactly as often as a task for it both reached the
/// target and recorded it — once per success, never on failure, and never
/// as a fragment.
pub proof fn lemma_output_file_exact(
    addrs: Seq<Seq<u8>>,
    probed: Seq<bool>,
    written: Seq<bool>,
    a: Seq<u8>,
)
    requires
        probed.len() == addrs.len(),
        written.len() == addrs.len(),
        forall|i: int| 0 <= i < addrs.len() ==> !(#[trigger] addrs[i]).contains(NEWLINE),
        forall|i: int|
            0 <= i < addrs.len() ==> ((#[trigger] addrs[i]).len() == 0 || addrs[i].last()
                != CARRIAGE_RETURN),
    ensures
        occurrences(
            spec_lines(output_bytes(recorded_addresses(addrs, probed, written))),
            a,
        ) == successful_occurrences(addrs, probed, written, a),
{
    let recs = recorded_addresses(addrs, probed, written);
    assert forall|j: int| 0 <= j < recs.len() implies !(#[trigger] recs[j]).contains(NEWLINE) && (
    recs[j].len() == 0 || recs[j].last() != CARRIAGE_RETURN) by {
        assert(recs.contains(recs[j]));
        lemma_output_membership(addrs, probed, written, recs[j]);
        let i: int = choose|i: int|
            0 <= i < addrs.len() && addrs[i] == recs[j] && probed[i] && written[i];
        assert(!addrs[i].contains(NEWLINE));
        assert(addrs[i].len() == 0 || addrs[i].last() != CARRIAGE_RETURN);
    }
    lemma_output_lines_round_trip(recs);
    lemma_output_multiplicity(addrs, probed, written, a);
}

/// An empty input yields an empty output: no addresses, no records, no bytes.
pub proof fn lemma_empty_input_empty_output(addrs: Seq<Seq<u8>>, probed: Seq<bool>, written: Seq<
    bool,
>)
    requires
        addrs.len() == 0,
    ensures
        recorded_addresses(addrs, probed, written).len() == 0,
        output_bytes(recorded_addresses(addrs, probed, written)).len() == 0,
{
}

} // verus!
