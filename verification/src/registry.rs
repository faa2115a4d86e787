//! The registry of a scrape and the exposition text that it renders.

use vstd::prelude::*;
use vstd::std_specs::iter::IteratorSpec;
use vstd::string::StringExecFns;

use crate::docker::{DockerContainerStats, StatsView};
use crate::error::{ApiError, ApiErrorView};
use crate::gauge::{
    container_samples, distinct_names, gauges_for_container, lemma_names_differ, normalized,
    sample_names, sample_views, MetricSample, SampleView,
};
use crate::text::chars_of;

verus! {

/// Whether one of the samples `reg` has the name `name`.
pub open spec fn holds_name(reg: Seq<SampleView>, name: Seq<char>) -> bool {
    exists|i: int| 0 <= i < reg.len() && (#[trigger] reg[i]).name == name
}

/// The failure of registering a name twice.
pub open spec fn duplicate(name: Seq<char>) -> ApiErrorView {
    ApiErrorView::DuplicateName { name }
}

/// How many of `samples`, from the first on, a registry that holds `reg`
/// accepts before a name collides with one that it holds by then.
pub open spec fn accepted(reg: Seq<SampleView>, samples: Seq<SampleView>) -> nat
    decreases samples.len(),
{
    if samples.len() == 0 || holds_name(reg, samples[0].name) {
        0
    } else {
        1 + accepted(reg.push(samples[0]), samples.drop_first())
    }
}

/// `help` as a help line holds it: a backslash is written as two, and a
/// newline as a backslash and the letter `n`, so that the line stays one
/// line.
pub open spec fn escaped(help: Seq<char>) -> Seq<char>
    decreases help.len(),
{
    if help.len() == 0 {
        Seq::empty()
    } else if help.last() == '\\' {
        escaped(help.drop_last()).push('\\').push('\\')
    } else if help.last() == '\n' {
        escaped(help.drop_last()).push('\\').push('n')
    } else {
        escaped(help.drop_last()).push(help.last())
    }
}

/// The three lines of one sample: its help text, its type, which is always
/// a gauge, and its value, each ended by a newline.
pub open spec fn sample_text(s: SampleView) -> Seq<char> {
    "# HELP "@ + s.name + " "@ + escaped(s.help) + "\n"@ + "# TYPE "@ + s.name + " gauge\n"@
        + s.name + " "@ + s.value.text() + "\n"@
}

/// The exposition text of `samples`: the lines of each, in order.
pub open spec fn render_text(samples: Seq<SampleView>) -> Seq<char>
    decreases samples.len(),
{
    if samples.len() == 0 {
        Seq::empty()
    } else {
        render_text(samples.drop_last()) + sample_text(samples.last())
    }
}

/// The views of the records `v`, in order.
pub open spec fn stats_views(v: Seq<DockerContainerStats>) -> Seq<StatsView> {
    Seq::new(v.len(), |i: int| v[i]@)
}

/// What a registry that holds `reg` holds after the samples of every record
/// of `stats` are registered, record by record. The first record whose
/// samples cannot be made, or the first sample whose name is held already,
/// fails the whole.
pub open spec fn scraped(reg: Seq<SampleView>, stats: Seq<StatsView>) -> Result<
    Seq<SampleView>,
    ApiErrorView,
>
    decreases stats.len(),
{
    if stats.len() == 0 {
        Ok(reg)
    } else {
        match container_samples(stats[0]) {
            Err(e) => Err(e),
            Ok(samples) => if accepted(reg, samples) < samples.len() {
                Err(duplicate(samples[accepted(reg, samples) as int].name))
            } else {
                scraped(reg + samples, stats.drop_first())
            },
        }
    }
}

/// The exposition text of the records `stats`, or why there is none.
pub open spec fn exposition(stats: Seq<StatsView>) -> Result<Seq<char>, ApiErrorView> {
    match scraped(Seq::empty(), stats) {
        Ok(reg) => Ok(render_text(reg)),
        Err(e) => Err(e),
    }
}

/// The view of the outcome of a scrape.
pub open spec fn text_outcome(r: Result<String, ApiError>) -> Result<Seq<char>, ApiErrorView> {
    match r {
        Ok(s) => Ok(s@),
        Err(e) => Err(e@),
    }
}

/// The samples of one scrape, in the order of their registration. No two of
/// them share a name.
#[derive(Debug)]
pub struct MetricsRegistry {
    samples: Vec<MetricSample>,
}

impl View for MetricsRegistry {
    type V = Seq<SampleView>;

    closed spec fn view(&self) -> Seq<SampleView> {
        sample_views(self.samples@)
    }
}

/// The count of accepted samples never exceeds their number.
pub proof fn lemma_accepted_bound(reg: Seq<SampleView>, samples: Seq<SampleView>)
    ensures
        accepted(reg, samples) <= samples.len(),
    decreases samples.len(),
{
    if !(samples.len() == 0 || holds_name(reg, samples[0].name)) {
        lemma_accepted_bound(reg.push(samples[0]), samples.drop_first());
    }
}

/// Registration keeps the names distinct: what a registry with distinct
/// names holds after it accepted what it could has distinct names.
pub proof fn lemma_accepted_keeps_distinct(reg: Seq<SampleView>, samples: Seq<SampleView>)
    requires
        distinct_names(reg),
    ensures
        accepted(reg, samples) <= samples.len(),
        distinct_names(reg + samples.take(accepted(reg, samples) as int)),
    decreases samples.len(),
{
    if samples.len() == 0 || holds_name(reg, samples[0].name) {
        assert(reg + samples.take(0) =~= reg);
    } else {
        let next = reg.push(samples[0]);
        let rest = samples.drop_first();
        assert forall|i: int, j: int| 0 <= i < j < next.len() implies (#[trigger] next[i]).name != (
        #[trigger] next[j]).name by {
            if j == reg.len() {
                assert(next[i] == reg[i]);
            } else {
                assert(next[i] == reg[i] && next[j] == reg[j]);
            }
        }
        lemma_accepted_keeps_distinct(next, rest);
        let k = accepted(next, rest) as int;
        assert(next + rest.take(k) =~= reg + samples.take(k + 1));
    }
}

/// Registration in two parts: where the registry accepts the first `k`
/// samples, it then goes on with the rest from what it holds by then.
proof fn lemma_accepted_step(reg: Seq<SampleView>, samples: Seq<SampleView>, k: int)
    requires
        0 <= k <= samples.len(),
        accepted(reg, samples) >= k,
    ensures
        accepted(reg, samples) == k + accepted(reg + samples.take(k), samples.skip(k)),
    decreases k,
{
    if k == 0 {
        assert(reg + samples.take(0) =~= reg);
        assert(samples.skip(0) =~= samples);
    } else {
        let next = reg.push(samples[0]);
        let rest = samples.drop_first();
        lemma_accepted_step(next, rest, k - 1);
        assert(next + rest.take(k - 1) =~= reg + samples.take(k));
        assert(rest.skip(k - 1) =~= samples.skip(k));
    }
}

/// Rendering depends on the registered samples alone, so rendering the same
/// registry again gives the same text.
pub proof fn lemma_render_is_stable(a: MetricsRegistry, b: MetricsRegistry)
    requires
        a@ == b@,
    ensures
        render_text(a@) == render_text(b@),
{
}

/// The text of a registry with one more sample is the text before, then the
/// lines of the new sample.
proof fn lemma_render_push(reg: Seq<SampleView>, sample: SampleView)
    ensures
        render_text(reg.push(sample)) == render_text(reg) + sample_text(sample),
{
    assert(reg.push(sample).drop_last() =~= reg);
}

/// Two records whose container names are the same once hyphens are replaced
/// cannot both be registered: where the samples of both can be made, the
/// second record's first sample collides, and the scrape fails with that
/// name.
pub proof fn lemma_same_prefix_collides(first: StatsView, second: StatsView)
    requires
        normalized(first.container) == normalized(second.container),
        container_samples(first) is Ok,
        container_samples(second) is Ok,
    ensures
        scraped(Seq::empty(), seq![first, second]) == Err::<Seq<SampleView>, ApiErrorView>(
            duplicate(sample_names(second.container)[0]),
        ),
{
    let a = container_samples(first)->Ok_0;
    let b = container_samples(second)->Ok_0;
    let none = Seq::<SampleView>::empty();
    let stats = seq![first, second];
    lemma_names_differ(first.container);
    assert(a.len() == 4 && b.len() == 4);
    assert(distinct_names(a)) by {
        assert forall|i: int, j: int| 0 <= i < j < a.len() implies (#[trigger] a[i]).name != (
        #[trigger] a[j]).name by {
            assert(a[i].name == sample_names(first.container)[i]);
            assert(a[j].name == sample_names(first.container)[j]);
        }
    }
    lemma_all_accepted(none, a);
    assert(none + a =~= a);
    let rest = stats.drop_first();
    assert(rest.len() == 1 && rest[0] == second);
    assert(stats[0] == first);
    assert(a[0].name == b[0].name);
    assert(holds_name(a, b[0].name));
    assert(accepted(a, b) == 0);
    assert(scraped(a, rest) == Err::<Seq<SampleView>, ApiErrorView>(duplicate(b[0].name)));
    assert(scraped(none, stats) == scraped(none + a, rest));
}

/// A registry that holds the name of the first sample of a later record
/// fails the scrape with a duplicate name, whatever comes in between, where
/// the samples of every record can be made.
pub proof fn lemma_held_name_collides(reg: Seq<SampleView>, stats: Seq<StatsView>, j: int)
    requires
        0 <= j < stats.len(),
        forall|k: int| 0 <= k < stats.len() ==> container_samples(#[trigger] stats[k]) is Ok,
        holds_name(reg, sample_names(stats[j].container)[0]),
    ensures
        scraped(reg, stats) matches Err(e) && e is DuplicateName,
    decreases stats.len(),
{
    let a = container_samples(stats[0])->Ok_0;
    let name = sample_names(stats[j].container)[0];
    lemma_accepted_bound(reg, a);
    if accepted(reg, a) == a.len() {
        let rest = stats.drop_first();
        if j == 0 {
            assert(a[0].name == name);
            assert(accepted(reg, a) == 0);
        } else {
            let i = choose|i: int| 0 <= i < reg.len() && (#[trigger] reg[i]).name == name;
            assert((reg + a)[i] == reg[i]);
            assert forall|k: int| 0 <= k < rest.len() implies container_samples(
                #[trigger] rest[k],
            ) is Ok by {
                assert(rest[k] == stats[k + 1]);
            }
            assert(rest[j - 1] == stats[j]);
            lemma_held_name_collides(reg + a, rest, j - 1);
        }
    }
}

/// Two records whose container names are the same once hyphens are replaced
/// cannot stand in one scrape: where the samples of every record can be made,
/// the scrape fails with a duplicate name.
pub proof fn lemma_same_prefix_fails(reg: Seq<SampleView>, stats: Seq<StatsView>, i: int, j: int)
    requires
        0 <= i < j < stats.len(),
        normalized(stats[i].container) == normalized(
            stats[j].container,
        ),
        forall|k: int| 0 <= k < stats.len() ==> container_samples(#[trigger] stats[k]) is Ok,
    ensures
        scraped(reg, stats) matches Err(e) && e is DuplicateName,
    decreases stats.len(),
{
    let a = container_samples(stats[0])->Ok_0;
    lemma_accepted_bound(reg, a);
    if accepted(reg, a) == a.len() {
        let rest = stats.drop_first();
        assert forall|k: int| 0 <= k < rest.len() implies container_samples(
            #[trigger] rest[k],
        ) is Ok by {
            assert(rest[k] == stats[k + 1]);
        }
        assert(rest[j - 1] == stats[j]);
        if i == 0 {
            assert(a[0].name == sample_names(stats[j].container)[0]);
            assert((reg + a)[reg.len() as int] == a[0]);
            lemma_held_name_collides(reg + a, rest, j - 1);
        } else {
            assert(rest[i - 1] == stats[i]);
            lemma_same_prefix_fails(reg + a, rest, i - 1, j - 1);
        }
    }
}

/// A registry that holds none of the names of `samples`, which are distinct
/// among themselves, accepts them all.
pub proof fn lemma_all_accepted(reg: Seq<SampleView>, samples: Seq<SampleView>)
    requires
        distinct_names(samples),
        forall|i: int| 0 <= i < samples.len() ==> !holds_name(reg, (#[trigger] samples[i]).name),
    ensures
        accepted(reg, samples) == samples.len(),
    decreases samples.len(),
{
    if samples.len() > 0 {
        let next = reg.push(samples[0]);
        let rest = samples.drop_first();
        assert forall|i: int| 0 <= i < rest.len() implies !holds_name(
            next,
            (#[trigger] rest[i]).name,
        ) by {
            assert(rest[i] == samples[i + 1]);
            if holds_name(next, rest[i].name) {
                let k = choose|k: int| 0 <= k < next.len() && (#[trigger] next[k]).name == rest[i].name;
                if k < reg.len() {
                    assert(next[k] == reg[k]);
                    assert(holds_name(reg, samples[i + 1].name));
                } else {
                    assert(next[k] == samples[0]);
                }
            }
        }
        assert forall|i: int, j: int| 0 <= i < j < rest.len() implies (#[trigger] rest[i]).name != (
        #[trigger] rest[j]).name by {
            assert(rest[i] == samples[i + 1] && rest[j] == samples[j + 1]);
        }
        lemma_all_accepted(next, rest);
    }
}

/// An escaped text holds no newline.
pub proof fn lemma_escaped_is_one_line(help: Seq<char>)
    ensures
        forall|i: int| 0 <= i < escaped(help).len() ==> #[trigger] escaped(help)[i] != '\n',
    decreases help.len(),
{
    if help.len() > 0 {
        let front = escaped(help.drop_last());
        lemma_escaped_is_one_line(help.drop_last());
        assert forall|i: int| 0 <= i < escaped(help).len() implies #[trigger] escaped(help)[i]
            != '\n' by {
            if i < front.len() {
                assert(escaped(help)[i] == front[i]);
            }
        }
    }
}

/// `help` with its backslashes and newlines written as escapes.
pub fn escape_help(help: &str) -> (r: String)
    ensures
        r@ == escaped(help@),
{
    let chars = chars_of(help);
    let n = chars.len();
    let mut r = String::new();
    let mut i: usize = 0;
    assert(chars@.take(0) =~= Seq::<char>::empty());
    while i < n
        invariant
            i <= n,
            n == chars.len(),
            r@ == escaped(chars@.take(i as int)),
        decreases n - i,
    {
        let c = chars[i];
        assert(chars@.take(i + 1).drop_last() =~= chars@.take(i as int));
        if c == '\\' {
            r.push('\\');
            r.push('\\');
        } else if c == '\n' {
            r.push('\\');
            r.push('n');
        } else {
            r.push(c);
        }
        i += 1;
    }
    assert(chars@.take(n as int) =~= chars@);
    r
}

/// The three lines of `sample`.
pub fn sample_lines(sample: &MetricSample) -> (r: String)
    ensures
        r@ == sample_text(sample@),
{
    let value = sample.value().to_text();
    let help = escape_help(sample.help());
    let mut lines = "# HELP ".to_owned();
    lines.append(sample.name());
    lines.append(" ");
    lines.append(help.as_str());
    lines.append("\n");
    lines.append("# TYPE ");
    lines.append(sample.name());
    lines.append(" gauge\n");
    lines.append(sample.name());
    lines.append(" ");
    lines.append(value.as_str());
    lines.append("\n");
    lines
}

impl MetricsRegistry {
    #[verifier::type_invariant]
    spec fn names_are_distinct(&self) -> bool {
        distinct_names(sample_views(self.samples@))
    }

    /// A registry that holds nothing.
    pub fn new() -> (r: MetricsRegistry)
        ensures
            r@ == Seq::<SampleView>::empty(),
            distinct_names(r@),
    {
        let r = MetricsRegistry { samples: Vec::new() };
        assert(r@ =~= Seq::<SampleView>::empty());
        r
    }

    /// The number of registered samples.
    pub fn len(&self) -> (n: usize)
        ensures
            n == self@.len(),
    {
        self.samples.len()
    }

    /// Does nothing when run; to a verified caller it shows that no two
    /// registered samples share a name.
    pub fn establish_distinct(&self)
        ensures
            distinct_names(self@),
    {
        proof {
            use_type_invariant(self);
        }
    }

    /// Registers `sample` after those that are registered. A name that is
    /// held already is rejected, and the registry stays as it was.
    pub fn register(&mut self, sample: MetricSample) -> (r: Result<(), ApiError>)
        ensures
            holds_name(old(self)@, sample@.name) ==> final(self)@ == old(self)@ && (r matches Err(
                e,
            ) && e@ == duplicate(sample@.name)),
            !holds_name(old(self)@, sample@.name) ==> r is Ok && final(self)@ == old(self)@.push(
                sample@,
            ),
            distinct_names(final(self)@),
    {
        proof {
            use_type_invariant(&*self);
        }
        let n = self.samples.len();
        let mut i: usize = 0;
        while i < n
            invariant
                i <= n,
                n == self.samples.len(),
                *self == *old(self),
                distinct_names(self@),
                forall|k: int| 0 <= k < i ==> (#[trigger] self@[k]).name != sample@.name,
            decreases n - i,
        {
            if self.samples[i].same_name(&sample) {
                assert(self@[i as int].name == sample@.name);
                return Err(ApiError::DuplicateName { name: sample.name().to_owned() });
            }
            i += 1;
        }
        let ghost before = self@;
        let ghost added = sample@;
        let mut samples: Vec<MetricSample> = Vec::new();
        core::mem::swap(&mut self.samples, &mut samples);
        samples.push(sample);
        proof {
            let after = sample_views(samples@);
            assert(after =~= before.push(added));
            assert forall|a: int, b: int| 0 <= a < b < after.len() implies (#[trigger] after[a]).name
                != (#[trigger] after[b]).name by {
                if b == before.len() {
                    assert(after[a] == before[a]);
                } else {
                    assert(after[a] == before[a] && after[b] == before[b]);
                }
            }
        }
        self.samples = samples;
        Ok(())
    }

    /// Registers `samples` one after the other. The first whose name is held
    /// already ends the registration with that name; those before it stay
    /// registered.
    pub fn register_all(&mut self, samples: Vec<MetricSample>) -> (r: Result<(), ApiError>)
        ensures
            final(self)@ == old(self)@ + sample_views(samples@).take(
                accepted(old(self)@, sample_views(samples@)) as int,
            ),
            accepted(old(self)@, sample_views(samples@)) == samples@.len() ==> r is Ok,
            accepted(old(self)@, sample_views(samples@)) < samples@.len() ==> (r matches Err(e)
                && e@ == duplicate(
                sample_views(samples@)[accepted(old(self)@, sample_views(samples@)) as int].name,
            )),
            distinct_names(final(self)@),
    {
        let ghost all = sample_views(samples@);
        let ghost start = self@;
        self.establish_distinct();
        proof {
            lemma_accepted_bound(start, all);
            assert(start + all.take(0) =~= start);
        }
        for sample in it: samples
            invariant
                it.seq() == samples@,
                all == sample_views(samples@),
                start == old(self)@,
                self@ == start + all.take(it.index() as int),
                distinct_names(self@),
                accepted(start, all) >= it.index(),
                accepted(start, all) <= all.len(),
        {
            let ghost k = it.index() as int;
            proof {
                lemma_accepted_step(start, all, k);
                assert(all.skip(k)[0] == all[k]);
                assert(all[k] == sample@);
            }
            match self.register(sample) {
                Ok(()) => {
                    proof {
                        assert(self@ =~= start + all.take(k + 1));
                    }
                },
                Err(e) => {
                    return Err(e);
                },
            }
        }
        proof {
            assert(all.take(all.len() as int) =~= all);
        }
        Ok(())
    }

    /// The exposition text: the three lines of every sample, in the order of
    /// registration.
    pub fn render(&self) -> (text: String)
        ensures
            text@ == render_text(self@),
    {
        let n = self.samples.len();
        let mut out = String::new();
        let mut i: usize = 0;
        assert(self@.take(0) =~= Seq::<SampleView>::empty());
        while i < n
            invariant
                i <= n,
                n == self.samples.len(),
                out@ == render_text(self@.take(i as int)),
            decreases n - i,
        {
            let lines = sample_lines(&self.samples[i]);
            out.append(lines.as_str());
            proof {
                let s = self.samples@[i as int]@;
                assert(self@.take(i + 1) =~= self@.take(i as int).push(s));
                lemma_render_push(self@.take(i as int), s);
            }
            i += 1;
        }
        assert(self@.take(n as int) =~= self@);
        out
    }
}

/// Makes the exposition text of the records `stats`: the samples of each
/// record are made and registered, record by record, in a fresh registry,
/// which is then rendered. Any failure fails the whole, and nothing is
/// rendered.
pub fn get_prometheus_format(stats: Vec<DockerContainerStats>) -> (r: Result<String, ApiError>)
    ensures
        text_outcome(r) == exposition(stats_views(stats@)),
{
    let mut registry = MetricsRegistry::new();
    let ghost all = stats_views(stats@);
    let n = stats.len();
    let mut i: usize = 0;
    assert(all.skip(0) =~= all);
    while i < n
        invariant
            i <= n,
            n == stats.len(),
            all == stats_views(stats@),
            scraped(Seq::empty(), all) == scraped(registry@, all.skip(i as int)),
        decreases n - i,
    {
        let ghost rest = all.skip(i as int);
        let ghost before = registry@;
        proof {
            assert(rest[0] == stats@[i as int]@);
            assert(rest.drop_first() =~= all.skip(i + 1));
        }
        let samples = match gauges_for_container(&stats[i]) {
            Ok(samples) => samples,
            Err(e) => {
                return Err(e);
            },
        };
        let ghost views = sample_views(samples@);
        assert(container_samples(rest[0]) == Ok::<Seq<SampleView>, ApiErrorView>(views));
        proof {
            lemma_accepted_bound(before, views);
        }
        match registry.register_all(samples) {
            Ok(()) => {},
            Err(e) => {
                assert(scraped(before, rest) == Err::<Seq<SampleView>, ApiErrorView>(e@));
                return Err(e);
            },
        }
        proof {
            assert(views.take(views.len() as int) =~= views);
            assert(scraped(before, rest) == scraped(before + views, rest.drop_first()));
        }
        i += 1;
    }
    Ok(registry.render())
}

/// One scrape, from what the source of the records gave. The failure of the
/// source is the failure of the scrape; a list of records is rendered by
/// [`get_prometheus_format`].
pub fn docker_stats_metrics(source: Result<Vec<DockerContainerStats>, ApiError>) -> (r: Result<
    String,
    ApiError,
>)
    ensures
        match source {
            Ok(stats) => text_outcome(r) == exposition(stats_views(stats@)),
            Err(e) => r matches Err(failure) && failure == e,
        },
{
    match source {
        Ok(stats) => get_prometheus_format(stats),
        Err(e) => Err(e),
    }
}

} // verus!
