//! The collector's bookkeeping: flattening what a producer reports, merging
//! one collection cycle across producers, and the cache of the latest batch.
//!
//! A producer that fails to respond is left out of a cycle's batch but stays
//! registered, so it reappears once it is reachable again.

use vstd::prelude::*;

use crate::registry::{Producer, ProducerView};
use crate::render::{Sample, SampleView, sample_views};

verus! {

/// One item of what a producer reports: a batch of samples, or an error it
/// met while collecting them (which carries no samples).
pub enum ProducerResultsItem {
    Samples(Vec<Sample>),
    Error(String),
}

/// The samples of the items that are batches, in order; error items add
/// nothing.
pub open spec fn reported_samples(items: Seq<ProducerResultsItem>) -> Seq<SampleView>
    decreases items.len(),
{
    if items.len() == 0 {
        Seq::empty()
    } else {
        reported_samples(items.drop_last()) + match items.last() {
            ProducerResultsItem::Samples(samples) => sample_views(samples@),
            ProducerResultsItem::Error(_) => Seq::empty(),
        }
    }
}

/// The samples of the producers that answered, in the order the producers
/// were asked; a producer that failed adds nothing.
pub open spec fn cycle_samples(outcomes: Seq<Result<Vec<Sample>, String>>) -> Seq<SampleView>
    decreases outcomes.len(),
{
    if outcomes.len() == 0 {
        Seq::empty()
    } else {
        cycle_samples(outcomes.drop_last()) + match outcomes.last() {
            Ok(samples) => sample_views(samples@),
            Err(_) => Seq::empty(),
        }
    }
}

/// Flattens a producer's report into its samples: the batches are
/// concatenated in order, and items that report an error are skipped.
pub fn flatten_results(items: Vec<ProducerResultsItem>) -> (res: Vec<Sample>)
    ensures
        sample_views(res@) == reported_samples(items@),
{
    let ghost all_items = items@;
    let mut samples: Vec<Sample> = Vec::new();
    for item in it: items
        invariant
            it.seq() == all_items,
            sample_views(samples@) == reported_samples(all_items.take(it.index())),
    {
        proof {
            assert(all_items.take(it.index() + 1).drop_last() =~= all_items.take(it.index()));
        }
        let ghost before = samples@;
        match item {
            ProducerResultsItem::Samples(mut batch) => {
                let ghost batch_view = batch@;
                samples.append(&mut batch);
                assert(sample_views(samples@) =~= sample_views(before) + sample_views(batch_view));
            },
            ProducerResultsItem::Error(_) => {},
        }
    }
    proof {
        assert(all_items.take(all_items.len() as int) =~= all_items);
    }
    samples
}

/// The lowercase hexadecimal digit of a value in `0..16`.
pub open spec fn hex_digit(n: int) -> char {
    if n < 10 {
        (48 + n) as char
    } else {
        (87 + n) as char
    }
}

/// The `k`-th 4-bit group of a 128-bit value, counting from the most
/// significant one.
pub open spec fn uuid_nibble(v: u128, k: int) -> int {
    ((v >> ((124 - 4 * k) as u128)) & 15u128) as int
}

/// How many hyphens precede position `p` of the hyphenated form.
pub open spec fn hyphens_before(p: int) -> int {
    if p < 8 {
        0
    } else if p < 13 {
        1
    } else if p < 18 {
        2
    } else if p < 23 {
        3
    } else {
        4
    }
}

/// The hyphenated form of a UUID: its 32 hexadecimal digits, lowercase and
/// most significant first, grouped 8-4-4-4-12 by hyphens.
pub open spec fn uuid_text(v: u128) -> Seq<char> {
    Seq::new(
        36,
        |p: int|
            if p == 8 || p == 13 || p == 18 || p == 23 {
                '-'
            } else {
                hex_digit(uuid_nibble(v, p - hyphens_before(p)))
            },
    )
}

/// Calls `uuid::Uuid::from_u128` and the `Display` impl of `uuid::Uuid`.
/// Claimed: the text is the hyphenated lowercase form of the id (the uuid
/// crate's `Display` writes `LowerHex` of the hyphenated form, built from
/// the big-endian bytes of the `u128`).
#[verifier::external_body]
fn uuid_hyphenated(id: u128) -> (res: String)
    ensures
        res@ == uuid_text(id),
{
    uuid::Uuid::from_u128(id).to_string()
}

/// The address the collector pulls a producer's samples from.
pub open spec fn producer_url_text(p: ProducerView) -> Seq<char> {
    "http://"@ + p.address + seq!['/'] + uuid_text(p.id)
}

/// `http://{address}/{id}`: where Oximeter's collection model fetches a
/// producer's results.
pub fn producer_url(producer: &Producer) -> (res: String)
    ensures
        res@ == producer_url_text(producer@),
{
    let id = uuid_hyphenated(producer.id);
    let mut url = String::new();
    url.append("http://");
    url.append(producer.address.as_str());
    url.push('/');
    url.append(id.as_str());
    url
}

/// Latest collected samples, replaced wholesale each collection cycle.
pub struct SampleCache {
    samples: Vec<Sample>,
}

impl View for SampleCache {
    type V = Seq<SampleView>;

    closed spec fn view(&self) -> Seq<SampleView> {
        sample_views(self.samples@)
    }
}

impl SampleCache {
    /// An empty cache.
    pub fn new() -> (res: Self)
        ensures
            res@ == Seq::<SampleView>::empty(),
    {
        let c = SampleCache { samples: Vec::new() };
        assert(c@ =~= Seq::<SampleView>::empty());
        c
    }

    /// Replaces the cached batch with `samples`.
    fn store(&mut self, samples: Vec<Sample>)
        ensures
            final(self)@ == sample_views(samples@),
    {
        self.samples = samples;
    }

    /// A copy of the cached batch.
    pub fn snapshot(&self) -> (res: Vec<Sample>)
        ensures
            sample_views(res@) == self@,
    {
        let mut out: Vec<Sample> = Vec::new();
        let mut i: usize = 0;
        while i < self.samples.len()
            invariant
                i <= self.samples.len(),
                out.len() == i,
                sample_views(out@) == sample_views(self.samples@).take(i as int),
            decreases self.samples.len() - i,
        {
            let s = self.samples[i].clone();
            assert(s@ == self.samples@[i as int]@);
            let ghost before = out@;
            out.push(s);
            proof {
                assert forall|j: int| 0 <= j < i + 1 implies #[trigger] sample_views(out@)[j]
                    == sample_views(self.samples@).take(i + 1)[j] by {
                    if j < i {
                        assert(out@[j] == before[j]);
                        assert(sample_views(before)[j] == sample_views(self.samples@).take(i as int)[j]);
                    }
                }
                assert(sample_views(out@) =~= sample_views(self.samples@).take(i + 1));
            }
            i = i + 1;
        }
        assert(sample_views(self.samples@).take(i as int) =~= sample_views(self.samples@));
        out
    }
}

/// Ends one collection cycle: the cache now holds the samples of every
/// producer that answered, in the order the producers were asked. Producers
/// that failed contribute nothing to this cycle.
pub fn collect_cycle(cache: &mut SampleCache, outcomes: Vec<Result<Vec<Sample>, String>>)
    ensures
        final(cache)@ == cycle_samples(outcomes@),
{
    let ghost all = outcomes@;
    let mut samples: Vec<Sample> = Vec::new();
    for outcome in it: outcomes
        invariant
            it.seq() == all,
            sample_views(samples@) == cycle_samples(all.take(it.index())),
    {
        proof {
            assert(all.take(it.index() + 1).drop_last() =~= all.take(it.index()));
        }
        let ghost before = samples@;
        match outcome {
            Ok(mut batch) => {
                let ghost batch_view = batch@;
                samples.append(&mut batch);
                assert(sample_views(samples@) =~= sample_views(before) + sample_views(batch_view));
            },
            Err(_) => {},
        }
    }
    proof {
        assert(all.take(all.len() as int) =~= all);
    }
    cache.store(samples);
}


/// A report's samples are gathered item by item: the samples of two reports
/// put together are the samples of the first followed by those of the
/// second, whatever items meet at the seam.
pub proof fn lemma_reported_samples_concat(a: Seq<ProducerResultsItem>, b: Seq<ProducerResultsItem>)
    ensures
        reported_samples(a + b) == reported_samples(a) + reported_samples(b),
    decreases b.len(),
{
    if b.len() == 0 {
        assert(a + b =~= a);
        assert(reported_samples(b) == Seq::<SampleView>::empty());
        assert(reported_samples(a) + reported_samples(b) =~= reported_samples(a));
    } else {
        lemma_reported_samples_concat(a, b.drop_last());
        assert((a + b).drop_last() =~= a + b.drop_last());
        assert((a + b).last() == b.last());
        assert(reported_samples(a + b) =~= reported_samples(a) + reported_samples(b));
    }
}

/// One item contributes all of its samples when it is a batch, and nothing
/// when it reports an error.
pub proof fn lemma_reported_samples_single(item: ProducerResultsItem)
    ensures
        reported_samples(seq![item]) == match item {
            ProducerResultsItem::Samples(samples) => sample_views(samples@),
            ProducerResultsItem::Error(_) => Seq::<SampleView>::empty(),
        },
{
    assert(seq![item].drop_last() =~= Seq::<ProducerResultsItem>::empty());
    assert(reported_samples(Seq::<ProducerResultsItem>::empty()) == Seq::<SampleView>::empty());
    assert(seq![item].last() == item);
    assert(reported_samples(seq![item]) =~= match item {
        ProducerResultsItem::Samples(samples) => sample_views(samples@),
        ProducerResultsItem::Error(_) => Seq::<SampleView>::empty(),
    });
}

/// A cycle's samples are gathered producer by producer: the samples of two
/// lists of outcomes put together are those of the first followed by those
/// of the second, whatever outcomes meet at the seam.
pub proof fn lemma_cycle_samples_concat(
    a: Seq<Result<Vec<Sample>, String>>,
    b: Seq<Result<Vec<Sample>, String>>,
)
    ensures
        cycle_samples(a + b) == cycle_samples(a) + cycle_samples(b),
    decreases b.len(),
{
    if b.len() == 0 {
        assert(a + b =~= a);
        assert(cycle_samples(b) == Seq::<SampleView>::empty());
        assert(cycle_samples(a) + cycle_samples(b) =~= cycle_samples(a));
    } else {
        lemma_cycle_samples_concat(a, b.drop_last());
        assert((a + b).drop_last() =~= a + b.drop_last());
        assert((a + b).last() == b.last());
        assert(cycle_samples(a + b) =~= cycle_samples(a) + cycle_samples(b));
    }
}

/// A producer that answered contributes all of its samples; one that failed
/// contributes nothing.
pub proof fn lemma_cycle_samples_single(outcome: Result<Vec<Sample>, String>)
    ensures
        cycle_samples(seq![outcome]) == match outcome {
            Ok(samples) => sample_views(samples@),
            Err(_) => Seq::<SampleView>::empty(),
        },
{
    assert(seq![outcome].drop_last() =~= Seq::<Result<Vec<Sample>, String>>::empty());
    assert(cycle_samples(Seq::<Result<Vec<Sample>, String>>::empty()) == Seq::<SampleView>::empty());
    assert(seq![outcome].last() == outcome);
    assert(cycle_samples(seq![outcome]) =~= match outcome {
        Ok(samples) => sample_views(samples@),
        Err(_) => Seq::<SampleView>::empty(),
    });
}

} // verus!
