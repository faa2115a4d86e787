//! The records that the container runtime reports.

use vstd::prelude::*;

use crate::text::chars_of;

verus! {

/// What the runtime reports of one container, as it wrote it: the name and
/// three human-readable texts.
#[derive(Debug, Clone)]
pub struct DockerContainerStats {
    pub container: String,
    pub cpu_perc: String,
    pub mem_perc: String,
    pub net_io: String,
}

/// The mathematical content of a [`DockerContainerStats`].
pub ghost struct StatsView {
    pub container: Seq<char>,
    pub cpu_perc: Seq<char>,
    pub mem_perc: Seq<char>,
    pub net_io: Seq<char>,
}

impl View for DockerContainerStats {
    type V = StatsView;

    open spec fn view(&self) -> StatsView {
        StatsView {
            container: self.container@,
            cpu_perc: self.cpu_perc@,
            mem_perc: self.mem_perc@,
            net_io: self.net_io@,
        }
    }
}

/// `s` without one trailing carriage return, where it ends in one.
pub open spec fn without_return(s: Seq<char>) -> Seq<char> {
    if s.len() > 0 && s.last() == '\r' {
        s.drop_last()
    } else {
        s
    }
}

/// `s` with a comma in place of every line ending: a newline, or a carriage
/// return and a newline.
pub open spec fn with_commas(s: Seq<char>) -> Seq<char>
    decreases s.len(),
{
    if s.len() == 0 {
        Seq::empty()
    } else if s.last() == '\n' {
        with_commas(without_return(s.drop_last())).push(',')
    } else {
        with_commas(s.drop_last()).push(s.last())
    }
}

/// The lines of `s` joined by commas: every line ending becomes a comma, but
/// for one at the very end, which is dropped. A carriage return that no
/// newline follows is part of its line.
pub open spec fn joined_lines(s: Seq<char>) -> Seq<char> {
    if s.len() > 0 && s.last() == '\n' {
        with_commas(without_return(s.drop_last()))
    } else {
        with_commas(s)
    }
}

/// The text of a JSON array whose elements are the lines of `s`.
pub open spec fn json_array(s: Seq<char>) -> Seq<char> {
    seq!['['] + joined_lines(s) + seq![']']
}

/// The text put through `with_commas` ends as the text does, but that a
/// newline at the end has become a comma.
proof fn lemma_with_commas_last(s: Seq<char>)
    requires
        s.len() > 0,
    ensures
        with_commas(s).len() > 0,
        with_commas(s).last() == (if s.last() == '\n' {
            ','
        } else {
            s.last()
        }),
{
}

/// Frames the output of the runtime, one JSON object on each line, as the
/// text of one JSON array: the lines joined by commas, in square brackets.
pub fn frame_records(output: &str) -> (r: String)
    ensures
        r@ == json_array(output@),
{
    let chars = chars_of(output);
    let n = chars.len();
    let mut body: Vec<char> = Vec::new();
    let mut i: usize = 0;
    assert(chars@.take(0) =~= Seq::<char>::empty());
    while i < n
        invariant
            i <= n,
            n == chars.len(),
            body@ == with_commas(chars@.take(i as int)),
        decreases n - i,
    {
        let c = chars[i];
        let ghost before = chars@.take(i as int);
        let ghost after = chars@.take(i + 1);
        proof {
            assert(after.drop_last() =~= before);
            assert(after.last() == c);
        }
        if c == '\n' {
            if i > 0 && chars[i - 1] == '\r' {
                proof {
                    lemma_with_commas_last(before);
                }
                body.pop();
            }
            body.push(',');
        } else {
            body.push(c);
        }
        i += 1;
    }
    assert(chars@.take(n as int) =~= chars@);
    if n > 0 && chars[n - 1] == '\n' {
        body.pop();
    }
    let mut r = String::new();
    r.push('[');
    let m = body.len();
    let mut k: usize = 0;
    while k < m
        invariant
            k <= m,
            m == body.len(),
            r@ == seq!['['] + body@.take(k as int),
        decreases m - k,
    {
        r.push(body[k]);
        assert(body@.take(k + 1) =~= body@.take(k as int).push(body@[k as int]));
        k += 1;
    }
    assert(body@.take(m as int) =~= body@);
    r.push(']');
    r
}

} // verus!
