use crate::text::{
    copy_range, equals_folded, lemma_lines_join, equals_folded_exec, find_char, find_char_from, lines, parse_u16,
    parse_u16_exec, port_set, skip_space, skip_space_from, skip_word, skip_word_from, split_lines,
};
use std::collections::HashSet;
use vstd::prelude::*;

verus! {

broadcast use vstd::std_specs::hash::group_hash_axioms;

/// The service name of a placeholder entry, which reserves nothing.
pub open spec fn unknown_word() -> Seq<char> {
    seq!['u', 'n', 'k', 'n', 'o', 'w', 'n']
}

/// The only protocol whose ports a listing reserves here.
pub open spec fn tcp_word() -> Seq<char> {
    seq!['t', 'c', 'p']
}

/// The port of a `port/protocol` field whose protocol lower-cases to `tcp`.
pub open spec fn tcp_port_of(f: Seq<char>) -> Option<u16> {
    let k = find_char(f, '/', 0);
    let proto = f.subrange(k + 1, f.len() as int);
    if k < f.len() && find_char(proto, '/', 0) == proto.len() && equals_folded(proto, tcp_word()) {
        parse_u16(f.subrange(0, k))
    } else {
        None
    }
}

/// The TCP port that one registry line reserves, if any.
///
/// The line is read as whitespace-separated fields: a blank line, a comment
/// (`#` first), a line with one field and a service named `unknown` reserve
/// nothing; otherwise the second field decides.
pub open spec fn entry_port(line: Seq<char>) -> Option<u16> {
    let a = skip_space(line, 0);
    let b = skip_word(line, a);
    let c = skip_space(line, b);
    let d = skip_word(line, c);
    if c >= line.len() || line[a] == '#' || equals_folded(line.subrange(a, b), unknown_word()) {
        None
    } else {
        tcp_port_of(line.subrange(c, d))
    }
}

/// The ports that the lines `ls` reserve.
pub open spec fn entry_ports(ls: Seq<Seq<char>>) -> Set<u16>
    decreases ls.len(),
{
    if ls.len() == 0 {
        Set::empty()
    } else {
        entry_ports(ls.drop_last()).union(port_set(entry_port(ls.last())))
    }
}

/// The TCP ports that a services listing reserves.
pub open spec fn services_ports(text: Seq<char>) -> Set<u16> {
    entry_ports(lines(text))
}

fn unknown_vec() -> (r: Vec<char>)
    ensures
        r@ == unknown_word(),
{
    let r = vec!['u', 'n', 'k', 'n', 'o', 'w', 'n'];
    assert(r@ =~= unknown_word());
    r
}

fn tcp_vec() -> (r: Vec<char>)
    ensures
        r@ == tcp_word(),
{
    let r = vec!['t', 'c', 'p'];
    assert(r@ =~= tcp_word());
    r
}

fn tcp_port_exec(f: &Vec<char>) -> (r: Option<u16>)
    ensures
        r == tcp_port_of(f@),
{
    let k = find_char_from(f, '/', 0);
    if k == f.len() {
        return None;
    }
    let proto = copy_range(f, k + 1, f.len());
    if find_char_from(&proto, '/', 0) < proto.len() {
        return None;
    }
    if !equals_folded_exec(&proto, &tcp_vec()) {
        return None;
    }
    parse_u16_exec(f, 0, k)
}

fn entry_port_exec(line: &Vec<char>) -> (r: Option<u16>)
    ensures
        r == entry_port(line@),
{
    let a = skip_space_from(line, 0);
    let b = skip_word_from(line, a);
    let c = skip_space_from(line, b);
    let d = skip_word_from(line, c);
    if c >= line.len() {
        return None;
    }
    if line[a] == '#' {
        return None;
    }
    let name = copy_range(line, a, b);
    if equals_folded_exec(&name, &unknown_vec()) {
        return None;
    }
    let field = copy_range(line, c, d);
    tcp_port_exec(&field)
}

/// The TCP ports that a services listing (`/etc/services` or nmap-services
/// format: `name port/protocol ...` per line) reserves.
pub fn parse_services_content(content: &str) -> (r: HashSet<u16>)
    ensures
        r@ == services_ports(content@),
{
    let ls = split_lines(content);
    let ghost all = lines(content@);
    let mut ports: HashSet<u16> = HashSet::new();
    let mut j: usize = 0;
    while j < ls.len()
        invariant
            j <= ls.len() == all.len(),
            all == lines(content@),
            forall|k: int| 0 <= k < ls@.len() ==> (#[trigger] ls@[k])@ == all[k],
            ports@ == entry_ports(all.take(j as int)),
        decreases ls.len() - j,
    {
        match entry_port_exec(&ls[j]) {
            Some(p) => {
                ports.insert(p);
            },
            None => {},
        }
        proof {
            assert(all.take(j + 1).drop_last() =~= all.take(j as int));
            assert(ports@ =~= entry_ports(all.take(j + 1)));
        }
        j = j + 1;
    }
    proof {
        assert(all.take(j as int) =~= all);
    }
    ports
}

proof fn lemma_entry_ports_append(x: Seq<Seq<char>>, y: Seq<Seq<char>>)
    ensures
        entry_ports(x + y) == entry_ports(x).union(entry_ports(y)),
    decreases y.len(),
{
    if y.len() == 0 {
        assert(x + y =~= x);
        assert(entry_ports(x).union(Set::empty()) =~= entry_ports(x));
    } else {
        lemma_entry_ports_append(x, y.drop_last());
        assert((x + y).drop_last() =~= x + y.drop_last());
        assert((x + y).last() == y.last());
        let here = port_set(entry_port(y.last()));
        assert(entry_ports(x).union(entry_ports(y.drop_last())).union(here) =~= entry_ports(
            x,
        ).union(entry_ports(y.drop_last()).union(here)));
    }
}

/// Parsing is idempotent: a listing followed by a second copy of itself
/// reserves exactly the ports that the listing alone reserves.
pub proof fn services_parse_idempotent(text: Seq<char>)
    ensures
        services_ports(text + seq!['\n'] + text) == services_ports(text),
{
    lemma_lines_join(text, text);
    lemma_entry_ports_append(lines(text), lines(text));
    assert(services_ports(text).union(services_ports(text)) =~= services_ports(text));
}

} // verus!
