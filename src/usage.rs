use crate::text::{
    digits_u16, digits_u16_exec, lemma_lines_join, lines, parse_u16, parse_u16_exec, port_set, skip_digits_back,
    skip_digits_back_from, split_lines, trim_chars, trimmed,
};
use std::collections::HashSet;
use vstd::prelude::*;

verus! {

broadcast use vstd::std_specs::hash::group_hash_axioms;

/// The marker that ends a listening-socket line: ` (LISTEN)`.
pub open spec fn listen_marker() -> Seq<char> {
    seq![' ', '(', 'L', 'I', 'S', 'T', 'E', 'N', ')']
}

/// The port of a listening-socket line `...:<port> (LISTEN)`, where the port
/// has one to five digits right after a colon.
pub open spec fn listen_port(t: Seq<char>) -> Option<u16> {
    let m = listen_marker();
    let cut = t.len() - m.len();
    let body = t.subrange(0, cut);
    let k = skip_digits_back(body, cut);
    if t.len() >= m.len() && t.subrange(cut, t.len() as int) == m && 1 <= cut - k <= 5 && k >= 1
        && body[k - 1] == ':' {
        digits_u16(body.subrange(k, cut))
    } else {
        None
    }
}

/// The port that one line of scanner output reports as in use, if any: a
/// listening-socket line, or a line that holds a bare port number.
pub open spec fn usage_port(line: Seq<char>) -> Option<u16> {
    let t = trimmed(line);
    match listen_port(t) {
        Some(p) => Some(p),
        None => parse_u16(t),
    }
}

/// The ports that the lines `ls` report as in use.
pub open spec fn usage_ports(ls: Seq<Seq<char>>) -> Set<u16>
    decreases ls.len(),
{
    if ls.len() == 0 {
        Set::empty()
    } else {
        usage_ports(ls.drop_last()).union(port_set(usage_port(ls.last())))
    }
}

/// The ports that a scanner's output reports as in use.
pub open spec fn used_ports(output: Seq<char>) -> Set<u16> {
    usage_ports(lines(output))
}

fn marker_vec() -> (r: Vec<char>)
    ensures
        r@ == listen_marker(),
{
    let r = vec![' ', '(', 'L', 'I', 'S', 'T', 'E', 'N', ')'];
    assert(r@ =~= listen_marker());
    r
}

fn ends_with(t: &Vec<char>, m: &Vec<char>) -> (r: bool)
    ensures
        r == (t@.len() >= m@.len() && t@.subrange(t@.len() - m@.len(), t@.len() as int) == m@),
{
    if t.len() < m.len() {
        return false;
    }
    let cut = t.len() - m.len();
    let mut i: usize = 0;
    while i < m.len()
        invariant
            cut == t.len() - m.len(),
            i <= m.len(),
            forall|k: int| 0 <= k < i ==> t@[cut + k] == m@[k],
        decreases m.len() - i,
    {
        if t[cut + i] != m[i] {
            proof {
                assert(t@.subrange(cut as int, t@.len() as int)[i as int] != m@[i as int]);
            }
            return false;
        }
        i = i + 1;
    }
    proof {
        assert(t@.subrange(cut as int, t@.len() as int) =~= m@);
    }
    true
}

fn listen_port_exec(t: &Vec<char>) -> (r: Option<u16>)
    ensures
        r == listen_port(t@),
{
    let m = marker_vec();
    if !ends_with(t, &m) {
        return None;
    }
    let cut = t.len() - m.len();
    let body = crate::text::copy_range(t, 0, cut);
    let k = skip_digits_back_from(&body, cut);
    if cut - k < 1 || cut - k > 5 || k < 1 || body[k - 1] != ':' {
        return None;
    }
    digits_u16_exec(&body, k, cut)
}

/// The port that one line of scanner output reports as in use, if any.
pub fn usage_line_port(line: &str) -> (r: Option<u16>)
    ensures
        r == usage_port(line@),
{
    let v = crate::text::chars_of(line);
    usage_port_exec(&v)
}

fn usage_port_exec(line: &Vec<char>) -> (r: Option<u16>)
    ensures
        r == usage_port(line@),
{
    let t = trim_chars(line);
    match listen_port_exec(&t) {
        Some(p) => Some(p),
        None => {
            proof {
                assert(t@.subrange(0, t@.len() as int) =~= t@);
            }
            parse_u16_exec(&t, 0, t.len())
        },
    }
}

/// The TCP ports that a scanner's output reports as in use.
///
/// A line is either a listening-socket line that ends in `:<port> (LISTEN)`
/// or a bare port number; lines of any other shape are skipped.
pub fn collect_used_ports(output: &str) -> (r: HashSet<u16>)
    ensures
        r@ == used_ports(output@),
{
    let ls = split_lines(output);
    let ghost all = lines(output@);
    let mut ports: HashSet<u16> = HashSet::new();
    let mut j: usize = 0;
    while j < ls.len()
        invariant
            j <= ls.len() == all.len(),
            all == lines(output@),
            forall|k: int| 0 <= k < ls@.len() ==> (#[trigger] ls@[k])@ == all[k],
            ports@ == usage_ports(all.take(j as int)),
        decreases ls.len() - j,
    {
        match usage_port_exec(&ls[j]) {
            Some(p) => {
                ports.insert(p);
            },
            None => {},
        }
        proof {
            assert(all.take(j + 1).drop_last() =~= all.take(j as int));
            assert(ports@ =~= usage_ports(all.take(j + 1)));
        }
        j = j + 1;
    }
    proof {
        assert(all.take(j as int) =~= all);
    }
    ports
}

proof fn lemma_usage_ports_append(x: Seq<Seq<char>>, y: Seq<Seq<char>>)
    ensures
        usage_ports(x + y) == usage_ports(x).union(usage_ports(y)),
    decreases y.len(),
{
    if y.len() == 0 {
        assert(x + y =~= x);
        assert(usage_ports(x).union(Set::empty()) =~= usage_ports(x));
    } else {
        lemma_usage_ports_append(x, y.drop_last());
        assert((x + y).drop_last() =~= x + y.drop_last());
        assert((x + y).last() == y.last());
        let here = port_set(usage_port(y.last()));
        assert(usage_ports(x).union(usage_ports(y.drop_last())).union(here) =~= usage_ports(
            x,
        ).union(usage_ports(y.drop_last()).union(here)));
    }
}

/// Collecting is idempotent: scanner output followed by a second copy of
/// itself reports exactly the ports that the output alone reports.
pub proof fn usage_collect_idempotent(output: Seq<char>)
    ensures
        used_ports(output + seq!['\n'] + output) == used_ports(output),
{
    lemma_lines_join(output, output);
    lemma_usage_ports_append(lines(output), lines(output));
    assert(used_ports(output).union(used_ports(output)) =~= used_ports(output));
}

} // verus!
