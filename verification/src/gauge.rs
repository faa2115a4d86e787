//! Metric samples and their construction from a container's record.

use vstd::prelude::*;
use vstd::string::StringExecFns;

use crate::decimal::{Decimal, DecimalView};
use crate::docker::{DockerContainerStats, StatsView};
use crate::error::{field_failure, parse_failure, ApiError, ApiErrorView, Field};
use crate::parse::{
    lemma_values_wf, net_io_value, parse_netio_str, parse_percent, percent_value,
};
use crate::text::chars_of;

verus! {

/// Whether a metric name may start with `c`: a letter or an underscore.
pub open spec fn is_name_start(c: char) -> bool {
    ('a' <= c && c <= 'z') || ('A' <= c && c <= 'Z') || c == '_'
}

/// Whether a metric name may hold `c`: a letter, a digit or an underscore.
pub open spec fn is_name_char(c: char) -> bool {
    is_name_start(c) || ('0' <= c && c <= '9')
}

/// The grammar of a metric name: letters, digits and underscores, at least
/// one character, and no digit in front.
pub open spec fn is_metric_name(s: Seq<char>) -> bool {
    &&& s.len() > 0
    &&& is_name_start(s[0])
    &&& forall|i: int| 0 <= i < s.len() ==> is_name_char(#[trigger] s[i])
}

/// `s` with an underscore in place of every hyphen.
pub open spec fn normalized(s: Seq<char>) -> Seq<char> {
    Seq::new(
        s.len(),
        |i: int|
            if s[i] == '-' {
                '_'
            } else {
                s[i]
            },
    )
}

/// The mathematical content of a [`MetricSample`].
pub ghost struct SampleView {
    pub name: Seq<char>,
    pub help: Seq<char>,
    pub value: DecimalView,
}

impl SampleView {
    /// The name is a metric name and the value holds decimal digits.
    pub open spec fn wf(self) -> bool {
        is_metric_name(self.name) && self.value.wf()
    }
}

/// A named gauge with its help text and its value. The name is always a
/// metric name.
#[derive(Debug)]
pub struct MetricSample {
    name: String,
    help: String,
    value: Decimal,
}

impl View for MetricSample {
    type V = SampleView;

    closed spec fn view(&self) -> SampleView {
        SampleView { name: self.name@, help: self.help@, value: self.value@ }
    }
}

/// The sample that [`get_gauge`] makes: hyphens in the name become
/// underscores, and a name that is then no metric name is a failure that
/// carries the name as it was given.
pub open spec fn gauge(name: Seq<char>, help: Seq<char>, value: DecimalView) -> Result<
    SampleView,
    ApiErrorView,
> {
    if is_metric_name(normalized(name)) {
        Ok(SampleView { name: normalized(name), help, value })
    } else {
        Err(parse_failure(name))
    }
}

/// The sample that [`percent_gauge`] makes: the percentage is read first,
/// then the name is checked.
pub open spec fn gauge_of_percent(name: Seq<char>, percent: Seq<char>, help: Seq<char>) -> Result<
    SampleView,
    ApiErrorView,
> {
    match percent_value(percent) {
        Ok(value) => gauge(name, help, value),
        Err(e) => Err(e),
    }
}

/// The view of the outcome of making one sample.
pub open spec fn sample_outcome(r: Result<MetricSample, ApiError>) -> Result<
    SampleView,
    ApiErrorView,
> {
    match r {
        Ok(s) => Ok(s@),
        Err(e) => Err(e@),
    }
}

/// The views of the samples `v`, in order.
pub open spec fn sample_views(v: Seq<MetricSample>) -> Seq<SampleView> {
    Seq::new(v.len(), |i: int| v[i]@)
}

/// The view of the outcome of making the samples of a record.
pub open spec fn samples_outcome(r: Result<Vec<MetricSample>, ApiError>) -> Result<
    Seq<SampleView>,
    ApiErrorView,
> {
    match r {
        Ok(v) => Ok(sample_views(v@)),
        Err(e) => Err(e@),
    }
}

/// Whether no two of the samples share a name.
pub open spec fn distinct_names(s: Seq<SampleView>) -> bool {
    forall|i: int, j: int| 0 <= i < j < s.len() ==> (#[trigger] s[i]).name != (#[trigger] s[j]).name
}

/// The suffix of the name of the CPU usage gauge.
pub open spec fn cpu_suffix() -> Seq<char> {
    "_cpu_usage"@
}

/// The suffix of the name of the memory usage gauge.
pub open spec fn mem_suffix() -> Seq<char> {
    "_mem_usage"@
}

/// The suffix of the name of the gauge of inbound traffic.
pub open spec fn input_suffix() -> Seq<char> {
    "_network_input_bytes"@
}

/// The suffix of the name of the gauge of outbound traffic.
pub open spec fn output_suffix() -> Seq<char> {
    "_network_output_bytes"@
}

/// The help text of the CPU usage gauge of `container`.
pub open spec fn cpu_help(container: Seq<char>) -> Seq<char> {
    "CPU Usage for the '"@ + container + "' container"@
}

/// The help text of the memory usage gauge of `container`.
pub open spec fn mem_help(container: Seq<char>) -> Seq<char> {
    "MEM Usage for the '"@ + container + "' container"@
}

/// The help text of the two traffic gauges.
pub open spec fn net_help() -> Seq<char> {
    "Help"@
}

/// The four metric names of `container`, in the order of the samples: the
/// container's name with underscores for hyphens, and the suffix of each
/// gauge.
pub open spec fn sample_names(container: Seq<char>) -> Seq<Seq<char>> {
    seq![
        normalized(container) + cpu_suffix(),
        normalized(container) + mem_suffix(),
        normalized(container) + input_suffix(),
        normalized(container) + output_suffix(),
    ]
}

/// Whether the four metric names of `container` follow the grammar of metric
/// names.
pub open spec fn names_valid(container: Seq<char>) -> bool {
    forall|i: int| 0 <= i < 4 ==> is_metric_name(#[trigger] sample_names(container)[i])
}

/// Whether `p` can stand in front of an underscore in a metric name: it
/// holds letters, digits and underscores only, and no digit in front.
pub open spec fn is_metric_prefix(p: Seq<char>) -> bool {
    &&& forall|i: int| 0 <= i < p.len() ==> is_name_char(#[trigger] p[i])
    &&& p.len() > 0 ==> is_name_start(p[0])
}

/// The samples of a record: CPU usage, memory usage, inbound traffic and
/// outbound traffic, in that order. The three texts are read in the order
/// CPU, memory, traffic, and then the names are checked; the first failure is
/// the failure of the record, and carries the field's text, the container
/// and the field.
pub open spec fn container_samples(stat: StatsView) -> Result<Seq<SampleView>, ApiErrorView> {
    let c = stat.container;
    match percent_value(stat.cpu_perc) {
        Err(_) => Err(field_failure(stat.cpu_perc, c, Field::CpuPercent)),
        Ok(cpu) => match percent_value(stat.mem_perc) {
            Err(_) => Err(field_failure(stat.mem_perc, c, Field::MemPercent)),
            Ok(mem) => match net_io_value(stat.net_io) {
                Err(_) => Err(field_failure(stat.net_io, c, Field::NetIo)),
                Ok((inbound, outbound)) => if !names_valid(c) {
                    Err(field_failure(c, c, Field::Container))
                } else {
                    Ok(
                        seq![
                            SampleView { name: sample_names(c)[0], help: cpu_help(c), value: cpu },
                            SampleView { name: sample_names(c)[1], help: mem_help(c), value: mem },
                            SampleView { name: sample_names(c)[2], help: net_help(), value: inbound },
                            SampleView { name: sample_names(c)[3], help: net_help(), value: outbound },
                        ],
                    )
                },
            },
        },
    }
}

/// What the four suffixes hold.
pub proof fn lemma_suffixes()
    ensures
        cpu_suffix() == seq!['_', 'c', 'p', 'u', '_', 'u', 's', 'a', 'g', 'e'],
        mem_suffix() == seq!['_', 'm', 'e', 'm', '_', 'u', 's', 'a', 'g', 'e'],
        input_suffix() == seq![
            '_', 'n', 'e', 't', 'w', 'o', 'r', 'k', '_', 'i',
            'n', 'p', 'u', 't', '_', 'b', 'y', 't', 'e', 's',
        ],
        output_suffix() == seq![
            '_', 'n', 'e', 't', 'w', 'o', 'r', 'k', '_', 'o',
            'u', 't', 'p', 'u', 't', '_', 'b', 'y', 't', 'e', 's',
        ],
{
    reveal_strlit("_cpu_usage");
    reveal_strlit("_mem_usage");
    reveal_strlit("_network_input_bytes");
    reveal_strlit("_network_output_bytes");
    assert(cpu_suffix() =~= seq!['_', 'c', 'p', 'u', '_', 'u', 's', 'a', 'g', 'e']);
    assert(mem_suffix() =~= seq!['_', 'm', 'e', 'm', '_', 'u', 's', 'a', 'g', 'e']);
    assert(input_suffix() =~= seq![
        '_', 'n', 'e', 't', 'w', 'o', 'r', 'k', '_', 'i',
        'n', 'p', 'u', 't', '_', 'b', 'y', 't', 'e', 's',
    ]);
    assert(output_suffix() =~= seq![
        '_', 'n', 'e', 't', 'w', 'o', 'r', 'k', '_', 'o',
        'u', 't', 'p', 'u', 't', '_', 'b', 'y', 't', 'e', 's',
    ]);
}

/// No suffix holds a hyphen, so the name of a gauge is the same whether the
/// hyphens are replaced before or after the suffix is appended.
pub proof fn lemma_normalized_names(container: Seq<char>)
    ensures
        normalized(container + cpu_suffix()) == sample_names(container)[0],
        normalized(container + mem_suffix()) == sample_names(container)[1],
        normalized(container + input_suffix()) == sample_names(container)[2],
        normalized(container + output_suffix()) == sample_names(container)[3],
{
    lemma_suffixes();
    assert(normalized(container + cpu_suffix()) =~= normalized(container) + cpu_suffix());
    assert(normalized(container + mem_suffix()) =~= normalized(container) + mem_suffix());
    assert(normalized(container + input_suffix()) =~= normalized(container) + input_suffix());
    assert(normalized(container + output_suffix()) =~= normalized(container) + output_suffix());
}

/// The four names of a container are metric names exactly where the
/// container's name, with underscores for hyphens, holds letters, digits and
/// underscores only and has no digit in front. The empty name is such a
/// name.
pub proof fn lemma_names_valid(container: Seq<char>)
    ensures
        names_valid(container) <==> is_metric_prefix(normalized(container)),
{
    lemma_suffixes();
    let p = normalized(container);
    let names = sample_names(container);
    if names_valid(container) {
        assert(is_metric_name(names[0]));
        assert forall|i: int| 0 <= i < p.len() implies is_name_char(#[trigger] p[i]) by {
            assert(names[0][i] == p[i]);
        }
        if p.len() > 0 {
            assert(names[0][0] == p[0]);
        }
    }
    if is_metric_prefix(p) {
        assert forall|k: int| 0 <= k < 4 implies is_metric_name(#[trigger] names[k]) by {
            let suffix = if k == 0 {
                cpu_suffix()
            } else if k == 1 {
                mem_suffix()
            } else if k == 2 {
                input_suffix()
            } else {
                output_suffix()
            };
            assert(names[k] == p + suffix);
            assert(forall|i: int| 0 <= i < suffix.len() ==> is_name_char(#[trigger] suffix[i]));
            assert(suffix[0] == '_');
            assert forall|i: int| 0 <= i < names[k].len() implies is_name_char(
                #[trigger] names[k][i],
            ) by {
                if i < p.len() {
                    assert(names[k][i] == p[i]);
                } else {
                    assert(names[k][i] == suffix[i - p.len()]);
                }
            }
            if p.len() > 0 {
                assert(names[k][0] == p[0]);
            } else {
                assert(names[k][0] == suffix[0]);
            }
        }
    }
}

/// The four metric names of a container differ from one another.
pub proof fn lemma_names_differ(container: Seq<char>)
    ensures
        forall|i: int, j: int|
            0 <= i < j < 4 ==> #[trigger] sample_names(container)[i] != #[trigger] sample_names(
                container,
            )[j],
{
    lemma_suffixes();
    let p = normalized(container);
    let names = sample_names(container);
    assert(names[0].len() == p.len() + 10);
    assert(names[1].len() == p.len() + 10);
    assert(names[2].len() == p.len() + 20);
    assert(names[3].len() == p.len() + 21);
    assert(names[0][p.len() as int + 1] == 'c');
    assert(names[1][p.len() as int + 1] == 'm');
}

/// The samples of a record can be made exactly where its two percentages
/// and its pair of sizes can be read and its container's name, with
/// underscores for hyphens, can stand in front of a metric name. They are
/// then four, their names are four different metric names, and their values
/// hold decimal digits.
pub proof fn lemma_samples_of_a_record(stat: StatsView)
    ensures
        container_samples(stat) is Ok <==> {
            &&& percent_value(stat.cpu_perc) is Ok
            &&& percent_value(stat.mem_perc) is Ok
            &&& net_io_value(stat.net_io) is Ok
            &&& is_metric_prefix(normalized(stat.container))
        },
        container_samples(stat) matches Ok(samples) ==> {
            &&& samples.len() == 4
            &&& distinct_names(samples)
            &&& forall|i: int| 0 <= i < 4 ==> (#[trigger] samples[i]).wf()
            &&& forall|i: int| 0 <= i < 4 ==> (#[trigger] samples[i]).name == sample_names(
                stat.container,
            )[i]
        },
{
    lemma_names_valid(stat.container);
    lemma_names_differ(stat.container);
    lemma_values_wf(stat.cpu_perc);
    lemma_values_wf(stat.mem_perc);
    lemma_values_wf(stat.net_io);
    if let Ok(samples) = container_samples(stat) {
        let names = sample_names(stat.container);
        assert(is_metric_name(names[0]));
        assert(is_metric_name(names[1]));
        assert(is_metric_name(names[2]));
        assert(is_metric_name(names[3]));
        assert forall|i: int, j: int| 0 <= i < j < samples.len() implies (
        #[trigger] samples[i]).name != (#[trigger] samples[j]).name by {
            assert(samples[i].name == names[i]);
            assert(samples[j].name == names[j]);
        }
    }
}

/// Whether the characters `s` follow the grammar of metric names.
fn check_metric_name(s: &Vec<char>) -> (r: bool)
    ensures
        r == is_metric_name(s@),
{
    let n = s.len();
    if n == 0 {
        return false;
    }
    let first = s[0];
    if !(('a' <= first && first <= 'z') || ('A' <= first && first <= 'Z') || first == '_') {
        return false;
    }
    let mut i: usize = 1;
    while i < n
        invariant
            1 <= i <= n,
            n == s.len(),
            is_name_start(s@[0]),
            forall|k: int| 0 <= k < i ==> is_name_char(#[trigger] s@[k]),
        decreases n - i,
    {
        let c = s[i];
        if !(('a' <= c && c <= 'z') || ('A' <= c && c <= 'Z') || c == '_' || ('0' <= c && c
            <= '9')) {
            return false;
        }
        i += 1;
    }
    true
}

/// Makes the sample `name` with the given help text and value. Every hyphen
/// of the name becomes an underscore; a name that is then no metric name is
/// rejected.
pub fn get_gauge(name: String, help: String, value: Decimal) -> (r: Result<MetricSample, ApiError>)
    ensures
        sample_outcome(r) == gauge(name@, help@, value@),
        r matches Ok(s) ==> s@.wf(),
{
    value.establish_wf();
    let chars = chars_of(name.as_str());
    let n = chars.len();
    let mut clean: Vec<char> = Vec::new();
    let mut metric_name = String::new();
    let mut i: usize = 0;
    while i < n
        invariant
            i <= n,
            n == chars.len(),
            clean@ == normalized(chars@).take(i as int),
            metric_name@ == clean@,
        decreases n - i,
    {
        let c = if chars[i] == '-' {
            '_'
        } else {
            chars[i]
        };
        clean.push(c);
        metric_name.push(c);
        assert(clean@ =~= normalized(chars@).take(i + 1));
        i += 1;
    }
    assert(clean@ =~= normalized(name@));
    if !check_metric_name(&clean) {
        return Err(ApiError::parse(name.as_str()));
    }
    Ok(MetricSample { name: metric_name, help, value })
}

/// Makes the sample `name` whose value is the percentage written by
/// `percent_string`.
pub fn percent_gauge(name: String, percent_string: String, help: String) -> (r: Result<
    MetricSample,
    ApiError,
>)
    ensures
        sample_outcome(r) == gauge_of_percent(name@, percent_string@, help@),
        r matches Ok(s) ==> s@.wf(),
{
    match parse_percent(percent_string.as_str()) {
        Ok(value) => get_gauge(name, help, value),
        Err(e) => Err(e),
    }
}

/// `container` followed by `suffix`.
fn with_suffix(container: &str, suffix: &str) -> (r: String)
    ensures
        r@ == container@ + suffix@,
{
    let mut name = container.to_owned();
    name.append(suffix);
    name
}

/// `before`, then `container`, then `after`.
fn help_text(before: &str, container: &str, after: &str) -> (r: String)
    ensures
        r@ == before@ + container@ + after@,
{
    let mut help = before.to_owned();
    help.append(container);
    help.append(after);
    help
}

/// Makes the four samples of a container's record: CPU usage, memory usage,
/// inbound traffic and outbound traffic. Either all four are made or none:
/// on success their names are four different metric names.
pub fn gauges_for_container(stat: &DockerContainerStats) -> (r: Result<Vec<MetricSample>, ApiError>)
    ensures
        samples_outcome(r) == container_samples(stat@),
        r matches Ok(v) ==> {
            &&& v@.len() == 4
            &&& distinct_names(sample_views(v@))
            &&& forall|i: int| 0 <= i < 4 ==> (#[trigger] v@[i])@.wf()
        },
{
    let container = stat.container.as_str();
    let ghost c = stat@.container;
    let cpu = match parse_percent(stat.cpu_perc.as_str()) {
        Ok(value) => value,
        Err(_) => {
            return Err(ApiError::in_field(stat.cpu_perc.as_str(), container, Field::CpuPercent));
        },
    };
    let mem = match parse_percent(stat.mem_perc.as_str()) {
        Ok(value) => value,
        Err(_) => {
            return Err(ApiError::in_field(stat.mem_perc.as_str(), container, Field::MemPercent));
        },
    };
    let (inbound, outbound) = match parse_netio_str(stat.net_io.as_str()) {
        Ok(pair) => pair,
        Err(_) => {
            return Err(ApiError::in_field(stat.net_io.as_str(), container, Field::NetIo));
        },
    };
    proof {
        lemma_normalized_names(c);
        lemma_names_differ(c);
    }
    let cpu_gauge = match get_gauge(
        with_suffix(container, "_cpu_usage"),
        help_text("CPU Usage for the '", container, "' container"),
        cpu,
    ) {
        Ok(sample) => sample,
        Err(_) => {
            assert(!is_metric_name(sample_names(c)[0]));
            return Err(ApiError::in_field(container, container, Field::Container));
        },
    };
    let mem_gauge = match get_gauge(
        with_suffix(container, "_mem_usage"),
        help_text("MEM Usage for the '", container, "' container"),
        mem,
    ) {
        Ok(sample) => sample,
        Err(_) => {
            assert(!is_metric_name(sample_names(c)[1]));
            return Err(ApiError::in_field(container, container, Field::Container));
        },
    };
    let input_gauge = match get_gauge(
        with_suffix(container, "_network_input_bytes"),
        "Help".to_owned(),
        inbound,
    ) {
        Ok(sample) => sample,
        Err(_) => {
            assert(!is_metric_name(sample_names(c)[2]));
            return Err(ApiError::in_field(container, container, Field::Container));
        },
    };
    let output_gauge = match get_gauge(
        with_suffix(container, "_network_output_bytes"),
        "Help".to_owned(),
        outbound,
    ) {
        Ok(sample) => sample,
        Err(_) => {
            assert(!is_metric_name(sample_names(c)[3]));
            return Err(ApiError::in_field(container, container, Field::Container));
        },
    };
    let mut samples: Vec<MetricSample> = Vec::new();
    samples.push(cpu_gauge);
    samples.push(mem_gauge);
    samples.push(input_gauge);
    samples.push(output_gauge);
    proof {
        let views = sample_views(samples@);
        assert(is_metric_name(sample_names(c)[0]));
        assert(is_metric_name(sample_names(c)[1]));
        assert(is_metric_name(sample_names(c)[2]));
        assert(is_metric_name(sample_names(c)[3]));
        assert(names_valid(c));
        assert(container_samples(stat@) matches Ok(expected) && views =~= expected);
        assert(views[0].name == sample_names(c)[0]);
        assert(views[1].name == sample_names(c)[1]);
        assert(views[2].name == sample_names(c)[2]);
        assert(views[3].name == sample_names(c)[3]);
    }
    Ok(samples)
}

impl MetricSample {
    #[verifier::type_invariant]
    spec fn name_is_metric_name(&self) -> bool {
        is_metric_name(self.name@)
    }

    /// The name.
    pub fn name(&self) -> (r: &str)
        ensures
            r@ == self@.name,
            is_metric_name(r@),
    {
        proof {
            use_type_invariant(self);
        }
        self.name.as_str()
    }

    /// Whether this sample and `other` have the same name.
    pub fn same_name(&self, other: &MetricSample) -> (r: bool)
        ensures
            r == (self@.name == other@.name),
    {
        self.name == other.name
    }

    /// The help text.
    pub fn help(&self) -> (r: &str)
        ensures
            r@ == self@.help,
    {
        self.help.as_str()
    }

    /// The value.
    pub fn value(&self) -> (r: &Decimal)
        ensures
            r@ == self@.value,
            r@.wf(),
    {
        self.value.establish_wf();
        &self.value
    }

    /// Replaces the value; the name and the help text stay.
    pub fn set(&mut self, value: Decimal)
        ensures
            final(self)@ == (SampleView {
                name: old(self)@.name,
                help: old(self)@.help,
                value: value@,
            }),
    {
        proof {
            use_type_invariant(&*self);
        }
        self.value = value;
    }
}

} // verus!
