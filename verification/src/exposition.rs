//! The shape of the exposition text: three lines for every sample.

use vstd::prelude::*;

use crate::decimal::{is_digit, DecimalView};
use crate::docker::StatsView;
use crate::gauge::{
    container_samples, distinct_names, is_metric_name, lemma_samples_of_a_record, SampleView,
};
use crate::registry::{
    escaped, exposition, lemma_accepted_keeps_distinct, lemma_escaped_is_one_line, render_text,
    sample_text, scraped,
};
use crate::round_trip::lemma_text_digits;

verus! {

/// The number of newlines in `s`.
pub open spec fn newlines(s: Seq<char>) -> nat
    decreases s.len(),
{
    if s.len() == 0 {
        0
    } else if s.last() == '\n' {
        newlines(s.drop_last()) + 1
    } else {
        newlines(s.drop_last())
    }
}

/// Whether `s` holds no newline.
pub open spec fn one_line(s: Seq<char>) -> bool {
    forall|i: int| 0 <= i < s.len() ==> #[trigger] s[i] != '\n'
}

/// The newlines of two texts, one after the other, add up.
pub proof fn lemma_newlines_add(a: Seq<char>, b: Seq<char>)
    ensures
        newlines(a + b) == newlines(a) + newlines(b),
    decreases b.len(),
{
    if b.len() == 0 {
        assert(a + b =~= a);
    } else {
        assert((a + b).drop_last() =~= a + b.drop_last());
        lemma_newlines_add(a, b.drop_last());
    }
}

/// A text without a newline counts none.
pub proof fn lemma_one_line(s: Seq<char>)
    requires
        one_line(s),
    ensures
        newlines(s) == 0,
    decreases s.len(),
{
    if s.len() > 0 {
        assert(s.last() != '\n');
        lemma_one_line(s.drop_last());
    }
}

/// The canonical text of a number holds a sign, digits and a point only, so
/// it is one line.
pub proof fn lemma_number_is_one_line(v: DecimalView)
    requires
        v.wf(),
    ensures
        one_line(v.text()),
{
    let sign = v.sign_text();
    let whole = v.whole_text();
    let point = v.point_text();
    lemma_text_digits(v);
    assert forall|i: int| 0 <= i < v.text().len() implies #[trigger] v.text()[i] != '\n' by {
        if i < sign.len() {
            assert(v.text()[i] == '-');
        } else if i < sign.len() + whole.len() {
            assert(v.text()[i] == whole[i - sign.len()]);
            assert(is_digit(whole[i - sign.len()]));
        } else {
            let k = i - sign.len() - whole.len();
            assert(v.text()[i] == point[k]);
            if k > 0 {
                let digits = point.skip(1);
                assert(point[k] == digits[k - 1]);
                assert(is_digit(digits[k - 1]));
            }
        }
    }
}

/// A metric name is one line.
pub proof fn lemma_name_is_one_line(name: Seq<char>)
    requires
        is_metric_name(name),
    ensures
        one_line(name),
{
}

/// What the fixed parts of the lines of a sample hold.
proof fn lemma_fixed_parts()
    ensures
        one_line("# HELP "@),
        one_line("# TYPE "@),
        one_line(" "@),
        newlines("\n"@) == 1,
        newlines(" gauge\n"@) == 1,
{
    reveal_strlit("# HELP ");
    reveal_strlit("# TYPE ");
    reveal_strlit(" ");
    reveal_strlit("\n");
    reveal_strlit(" gauge\n");
    assert("# HELP "@ =~= seq!['#', ' ', 'H', 'E', 'L', 'P', ' ']);
    assert("# TYPE "@ =~= seq!['#', ' ', 'T', 'Y', 'P', 'E', ' ']);
    assert(" "@ =~= seq![' ']);
    let newline = "\n"@;
    assert(newline =~= seq!['\n']);
    assert(newline.drop_last() =~= Seq::<char>::empty());
    assert(newline.last() == '\n');
    assert(newlines(newline.drop_last()) == 0);
    let gauge = " gauge\n"@;
    assert(gauge =~= seq![' ', 'g', 'a', 'u', 'g', 'e', '\n']);
    let front = gauge.drop_last();
    assert(front =~= seq![' ', 'g', 'a', 'u', 'g', 'e']);
    assert(one_line(front));
    lemma_one_line(front);
}

/// The text of a sample is three lines, each ended by a newline.
pub proof fn lemma_sample_is_three_lines(s: SampleView)
    requires
        s.wf(),
    ensures
        newlines(sample_text(s)) == 3,
        sample_text(s).last() == '\n',
{
    lemma_fixed_parts();
    lemma_name_is_one_line(s.name);
    lemma_number_is_one_line(s.value);
    lemma_escaped_is_one_line(s.help);
    lemma_one_line("# HELP "@);
    lemma_one_line("# TYPE "@);
    lemma_one_line(" "@);
    lemma_one_line(s.name);
    lemma_one_line(escaped(s.help));
    lemma_one_line(s.value.text());
    let t1 = "# HELP "@ + s.name;
    let t2 = t1 + " "@;
    let t3 = t2 + escaped(s.help);
    let t4 = t3 + "\n"@;
    let t5 = t4 + "# TYPE "@;
    let t6 = t5 + s.name;
    let t7 = t6 + " gauge\n"@;
    let t8 = t7 + s.name;
    let t9 = t8 + " "@;
    let t10 = t9 + s.value.text();
    let t11 = t10 + "\n"@;
    lemma_newlines_add("# HELP "@, s.name);
    lemma_newlines_add(t1, " "@);
    lemma_newlines_add(t2, escaped(s.help));
    lemma_newlines_add(t3, "\n"@);
    lemma_newlines_add(t4, "# TYPE "@);
    lemma_newlines_add(t5, s.name);
    lemma_newlines_add(t6, " gauge\n"@);
    lemma_newlines_add(t7, s.name);
    lemma_newlines_add(t8, " "@);
    lemma_newlines_add(t9, s.value.text());
    lemma_newlines_add(t10, "\n"@);
    assert(sample_text(s) == t11);
    reveal_strlit("\n");
    assert(t11.last() == "\n"@[0]);
}

/// The exposition text holds three lines for every sample.
pub proof fn lemma_render_is_three_lines_each(samples: Seq<SampleView>)
    requires
        forall|i: int| 0 <= i < samples.len() ==> (#[trigger] samples[i]).wf(),
    ensures
        newlines(render_text(samples)) == 3 * samples.len(),
    decreases samples.len(),
{
    if samples.len() > 0 {
        let front = samples.drop_last();
        assert forall|i: int| 0 <= i < front.len() implies (#[trigger] front[i]).wf() by {
            assert(front[i] == samples[i]);
        }
        lemma_render_is_three_lines_each(front);
        lemma_sample_is_three_lines(samples.last());
        lemma_newlines_add(render_text(front), sample_text(samples.last()));
    }
}

/// What a scrape leaves in the registry where it succeeds: four samples
/// more for every record, every sample with a metric name and a value of
/// decimal digits, and no name twice.
pub proof fn lemma_scraped_holds_four_each(reg: Seq<SampleView>, stats: Seq<StatsView>)
    requires
        distinct_names(reg),
        forall|i: int| 0 <= i < reg.len() ==> (#[trigger] reg[i]).wf(),
    ensures
        scraped(reg, stats) matches Ok(all) ==> {
            &&& all.len() == reg.len() + 4 * stats.len()
            &&& distinct_names(all)
            &&& forall|i: int| 0 <= i < all.len() ==> (#[trigger] all[i]).wf()
        },
    decreases stats.len(),
{
    if stats.len() > 0 && scraped(reg, stats) is Ok {
        let samples = container_samples(stats[0])->Ok_0;
        lemma_samples_of_a_record(stats[0]);
        lemma_accepted_keeps_distinct(reg, samples);
        assert(samples.take(samples.len() as int) =~= samples);
        let next = reg + samples;
        assert forall|i: int| 0 <= i < next.len() implies (#[trigger] next[i]).wf() by {
            if i < reg.len() {
                assert(next[i] == reg[i]);
            } else {
                assert(next[i] == samples[i - reg.len()]);
            }
        }
        lemma_scraped_holds_four_each(next, stats.drop_first());
    }
}

/// The exposition text of a scrape that succeeds holds twelve lines for
/// every record: three for each of its four samples.
pub proof fn lemma_exposition_is_twelve_lines_each(stats: Seq<StatsView>)
    ensures
        exposition(stats) matches Ok(text) ==> newlines(text) == 12 * stats.len(),
{
    let none = Seq::<SampleView>::empty();
    if let Ok(all) = scraped(none, stats) {
        lemma_scraped_holds_four_each(none, stats);
        lemma_render_is_three_lines_each(all);
    }
}

} // verus!
