use crate::strutil::{
    find_char, find_first, split_on, split_str, str_eq, trim, trim_brackets, trim_brackets_str,
    trim_str,
};
use vstd::prelude::*;
use vstd::string::*;

verus! {

// ------------------------------------------------------------------
// Data model
// ------------------------------------------------------------------

/// One `[Name]` block of the configuration: its name and its
/// key/value pairs, kept in insertion order.
#[derive(Debug, PartialEq, Eq, Clone)]
pub struct Section {
    pub name: String,
    pub entries: Vec<(String, String)>,
}

/// The mathematical value of a `Section`.
#[verifier::ext_equal]
pub ghost struct SectionModel {
    pub name: Seq<char>,
    pub entries: Seq<(Seq<char>, Seq<char>)>,
}

pub open spec fn entries_view(es: Seq<(String, String)>) -> Seq<(Seq<char>, Seq<char>)> {
    es.map_values(|p: (String, String)| (p.0@, p.1@))
}

impl View for Section {
    type V = SectionModel;

    open spec fn view(&self) -> SectionModel {
        SectionModel { name: self.name@, entries: entries_view(self.entries@) }
    }
}

/// The tunnel configuration: an ordered sequence of sections.
/// Section names may repeat; keys are unique within a section.
#[derive(Debug, PartialEq, Eq, Clone)]
pub struct WireguardConfig {
    pub sections: Vec<Section>,
}

pub open spec fn sections_view(ss: Seq<Section>) -> Seq<SectionModel> {
    ss.map_values(|s: Section| s@)
}

impl View for WireguardConfig {
    type V = Seq<SectionModel>;

    open spec fn view(&self) -> Seq<SectionModel> {
        sections_view(self.sections@)
    }
}

pub open spec fn view_opt_str(o: Option<String>) -> Option<Seq<char>> {
    match o {
        Option::Some(s) => Option::Some(s@),
        Option::None => Option::None,
    }
}

// ------------------------------------------------------------------
// Entry lookup and insert-or-overwrite
// ------------------------------------------------------------------

/// Index of the first entry carrying key `k`, or -1 when absent.
pub open spec fn key_index(es: Seq<(Seq<char>, Seq<char>)>, k: Seq<char>) -> int
    decreases es.len(),
{
    if es.len() == 0 {
        -1
    } else if es[0].0 == k {
        0
    } else {
        let r = key_index(es.skip(1), k);
        if r < 0 {
            -1
        } else {
            r + 1
        }
    }
}

pub proof fn lemma_key_index(es: Seq<(Seq<char>, Seq<char>)>, k: Seq<char>)
    ensures
        key_index(es, k) >= 0 ==> key_index(es, k) < es.len() && es[key_index(es, k)].0 == k
            && (forall|j: int| 0 <= j < key_index(es, k) ==> es[j].0 != k),
        key_index(es, k) < 0 ==> key_index(es, k) == -1 && (forall|j: int|
            0 <= j < es.len() ==> es[j].0 != k),
    decreases es.len(),
{
    if es.len() > 0 && es[0].0 != k {
        lemma_key_index(es.skip(1), k);
        let r = key_index(es.skip(1), k);
        if r >= 0 {
            assert(es[r + 1].0 == es.skip(1)[r].0);
            assert forall|j: int| 0 <= j < r + 1 implies es[j].0 != k by {
                if j > 0 {
                    assert(es.skip(1)[j - 1].0 == es[j].0);
                }
            }
        } else {
            assert forall|j: int| 0 <= j < es.len() implies es[j].0 != k by {
                if j > 0 {
                    assert(es.skip(1)[j - 1].0 == es[j].0);
                }
            }
        }
    }
}

/// `key_index` returns the first index whose key is `k`.
pub proof fn lemma_key_index_at(es: Seq<(Seq<char>, Seq<char>)>, k: Seq<char>, i: int)
    requires
        0 <= i <= es.len(),
        forall|j: int| 0 <= j < i ==> es[j].0 != k,
        i < es.len() ==> es[i].0 == k,
    ensures
        key_index(es, k) == if i < es.len() {
            i
        } else {
            -1
        },
    decreases i,
{
    if i == 0 {
    } else {
        assert(es[0].0 != k);
        lemma_key_index_at(es.skip(1), k, i - 1);
    }
}

/// The value stored under key `k`, if any.
pub open spec fn lookup(es: Seq<(Seq<char>, Seq<char>)>, k: Seq<char>) -> Option<Seq<char>> {
    let i = key_index(es, k);
    if i >= 0 {
        Option::Some(es[i].1)
    } else {
        Option::None
    }
}

/// Overwrite the value of an existing key in place, or append the
/// pair at the end: positions of all other entries are kept.
pub open spec fn upsert(es: Seq<(Seq<char>, Seq<char>)>, k: Seq<char>, v: Seq<char>) -> Seq<
    (Seq<char>, Seq<char>),
> {
    let i = key_index(es, k);
    if i >= 0 {
        es.update(i, (k, v))
    } else {
        es.push((k, v))
    }
}

/// Keys are unique within a section.
pub open spec fn unique_keys(es: Seq<(Seq<char>, Seq<char>)>) -> bool {
    forall|i: int, j: int| 0 <= i < j < es.len() ==> es[i].0 != es[j].0
}

pub proof fn lemma_upsert_unique_keys(es: Seq<(Seq<char>, Seq<char>)>, k: Seq<char>, v: Seq<char>)
    requires
        unique_keys(es),
    ensures
        unique_keys(upsert(es, k, v)),
{
    lemma_key_index(es, k);
    let i = key_index(es, k);
    if i >= 0 {
        let r = es.update(i, (k, v));
        assert forall|a: int, b: int| 0 <= a < b < r.len() implies r[a].0 != r[b].0 by {
            if a != i && b != i {
                assert(r[a].0 == es[a].0 && r[b].0 == es[b].0);
            } else if a == i {
                assert(r[b].0 == es[b].0);
                assert(es[i].0 == k);
            } else {
                assert(r[a].0 == es[a].0);
                assert(es[i].0 == k);
            }
        }
    } else {
        let r = es.push((k, v));
        assert forall|a: int, b: int| 0 <= a < b < r.len() implies r[a].0 != r[b].0 by {
            if b == es.len() {
                assert(r[a].0 == es[a].0);
            }
        }
    }
}

// ------------------------------------------------------------------
// Parsing
// ------------------------------------------------------------------

/// A trimmed line that opens a section: `[Name]`.
pub open spec fn is_header(l: Seq<char>) -> bool {
    l.len() > 0 && l[0] == '[' && l.last() == ']'
}

/// What one pass over the remaining raw lines yields, given the
/// section under construction and the sections finished so far.
/// Blank lines, comment lines, lines before any header and lines
/// without `=` are ignored; every other line is trimmed and split
/// on its first `=`.
pub open spec fn parse_lines(
    lines: Seq<Seq<char>>,
    cur: Option<SectionModel>,
    acc: Seq<SectionModel>,
) -> Seq<SectionModel>
    decreases lines.len(),
{
    if lines.len() == 0 {
        match cur {
            Option::None => acc,
            Option::Some(s) => acc.push(s),
        }
    } else {
        let l = trim(lines[0]);
        let rest = lines.skip(1);
        if l.len() == 0 || l[0] == '#' {
            parse_lines(rest, cur, acc)
        } else if is_header(l) {
            let acc2 = match cur {
                Option::None => acc,
                Option::Some(s) => acc.push(s),
            };
            parse_lines(
                rest,
                Option::Some(SectionModel { name: trim_brackets(l), entries: Seq::empty() }),
                acc2,
            )
        } else {
            match cur {
                Option::None => parse_lines(rest, cur, acc),
                Option::Some(s) => {
                    let i = find_first(l, '=');
                    if i < 0 {
                        parse_lines(rest, cur, acc)
                    } else {
                        let k = trim(l.take(i));
                        let v = trim(l.skip(i + 1));
                        parse_lines(
                            rest,
                            Option::Some(
                                SectionModel { name: s.name, entries: upsert(s.entries, k, v) },
                            ),
                            acc,
                        )
                    }
                },
            }
        }
    }
}

/// The configuration read from raw text.
pub open spec fn parse_text(t: Seq<char>) -> Seq<SectionModel> {
    parse_lines(split_on(t, '\n'), Option::None, Seq::empty())
}

pub open spec fn cur_model(cur_some: bool, name: Seq<char>, es: Seq<(Seq<char>, Seq<char>)>) -> Option<
    SectionModel,
> {
    if cur_some {
        Option::Some(SectionModel { name, entries: es })
    } else {
        Option::None
    }
}

fn upsert_entry(es: &mut Vec<(String, String)>, k: String, v: String)
    ensures
        entries_view(final(es)@) == upsert(entries_view(old(es)@), k@, v@),
{
    let n: usize = es.len();
    let ghost evs = entries_view(es@);
    let mut i: usize = 0;
    while i < n
        invariant
            0 <= i <= n,
            n == es.len(),
            es@ == old(es)@,
            evs == entries_view(es@),
            evs.len() == n,
            forall|j: int| 0 <= j < i ==> evs[j].0 != k@,
        decreases n - i,
    {
        if str_eq(es[i].0.as_str(), k.as_str()) {
            proof {
                assert(evs[i as int].0 == es@[i as int].0@);
                lemma_key_index_at(evs, k@, i as int);
            }
            let ghost before = es@;
            es.remove(i);
            es.insert(i, (k, v));
            proof {
                vstd::seq_lib::lemma_update_is_remove_insert(before, i as int, (k, v));
                assert(es@ == before.update(i as int, (k, v)));
                assert(entries_view(es@) =~= evs.update(i as int, (k@, v@)));
                assert(key_index(evs, k@) == i as int);
                assert(upsert(evs, k@, v@) == evs.update(i as int, (k@, v@)));
                assert(evs == entries_view(old(es)@));
                assert(entries_view(es@) == upsert(entries_view(old(es)@), k@, v@));
            }
            return ;
        }
        proof {
            assert(evs[i as int].0 == es@[i as int].0@);
        }
        i = i + 1;
    }
    proof {
        lemma_key_index_at(evs, k@, n as int);
    }
    es.push((k, v));
    proof {
        assert(entries_view(es@) =~= evs.push((k@, v@)));
    }
}

// ------------------------------------------------------------------
// Rendering
// ------------------------------------------------------------------

/// A rendered key/value line: `key = value`.
pub open spec fn entry_line(e: (Seq<char>, Seq<char>)) -> Seq<char> {
    e.0 + seq![' ', '=', ' '] + e.1
}

/// A rendered section header: `[Name]`.
pub open spec fn header_line(name: Seq<char>) -> Seq<char> {
    seq!['['] + name + seq![']']
}

pub open spec fn render_entries(es: Seq<(Seq<char>, Seq<char>)>) -> Seq<char>
    decreases es.len(),
{
    if es.len() == 0 {
        Seq::empty()
    } else {
        entry_line(es[0]) + seq!['\n'] + render_entries(es.skip(1))
    }
}

/// The text written for a configuration: each section's header, its
/// entries one per line, then a blank separator line.
pub open spec fn render_text(c: Seq<SectionModel>) -> Seq<char>
    decreases c.len(),
{
    if c.len() == 0 {
        Seq::empty()
    } else {
        header_line(c[0].name) + seq!['\n'] + render_entries(c[0].entries) + seq!['\n']
            + render_text(c.skip(1))
    }
}

// ------------------------------------------------------------------
// Merging
// ------------------------------------------------------------------

/// Insert-or-overwrite AllowedIPs in one section, if it is a Peer.
pub open spec fn set_section_ips(s: SectionModel, ips: Seq<char>) -> SectionModel {
    if s.name == "Peer"@ {
        SectionModel { name: s.name, entries: upsert(s.entries, "AllowedIPs"@, ips) }
    } else {
        s
    }
}

/// Every section named "Peer" gets the new AllowedIPs; no other
/// section is touched.
pub open spec fn set_peer_entries(c: Seq<SectionModel>, ips: Seq<char>) -> Seq<SectionModel> {
    c.map_values(|s: SectionModel| set_section_ips(s, ips))
}

/// Index of the first section with the given name, or -1.
pub open spec fn sec_index(c: Seq<SectionModel>, name: Seq<char>) -> int
    decreases c.len(),
{
    if c.len() == 0 {
        -1
    } else if c[0].name == name {
        0
    } else {
        let r = sec_index(c.skip(1), name);
        if r < 0 {
            -1
        } else {
            r + 1
        }
    }
}

/// `sec_index` returns the first index whose section bears `name`.
pub proof fn lemma_sec_index_at(c: Seq<SectionModel>, name: Seq<char>, i: int)
    requires
        0 <= i <= c.len(),
        forall|j: int| 0 <= j < i ==> c[j].name != name,
        i < c.len() ==> c[i].name == name,
    ensures
        sec_index(c, name) == if i < c.len() {
            i
        } else {
            -1
        },
    decreases i,
{
    if i == 0 {
    } else {
        assert(c[0].name != name);
        lemma_sec_index_at(c.skip(1), name, i - 1);
    }
}

/// The Endpoint of the first Peer section, if both exist.
pub open spec fn peer_endpoint(c: Seq<SectionModel>) -> Option<Seq<char>> {
    let i = sec_index(c, "Peer"@);
    if i >= 0 {
        lookup(c[i].entries, "Endpoint"@)
    } else {
        Option::None
    }
}

// ------------------------------------------------------------------
// Laws
// ------------------------------------------------------------------

/// Writing the same value under the same key twice equals writing it
/// once.
pub proof fn lemma_upsert_idempotent(es: Seq<(Seq<char>, Seq<char>)>, k: Seq<char>, v: Seq<char>)
    ensures
        upsert(upsert(es, k, v), k, v) == upsert(es, k, v),
{
    lemma_key_index(es, k);
    let i = key_index(es, k);
    if i >= 0 {
        let e2 = es.update(i, (k, v));
        lemma_key_index_at(e2, k, i);
        assert(upsert(e2, k, v) =~= e2);
    } else {
        let e2 = es.push((k, v));
        lemma_key_index_at(e2, k, es.len() as int);
        assert(upsert(e2, k, v) =~= e2);
    }
}

/// Law: `set_peer_allowed_ips` touches every section named "Peer"
/// and no others: each Peer gets AllowedIPs inserted or overwritten
/// in place, every other section comes through unchanged, and the
/// section order is kept.
pub proof fn lemma_set_peer_touches_only_peers(c: Seq<SectionModel>, ips: Seq<char>)
    ensures
        set_peer_entries(c, ips).len() == c.len(),
        forall|j: int|
            0 <= j < c.len() && c[j].name != "Peer"@ ==> set_peer_entries(c, ips)[j] == c[j],
        forall|j: int|
            0 <= j < c.len() && c[j].name == "Peer"@ ==> set_peer_entries(c, ips)[j]
                == (SectionModel { name: c[j].name, entries: upsert(c[j].entries, "AllowedIPs"@, ips) }),
{
}

/// Law: `set_peer_allowed_ips` is idempotent. Applying the same
/// AllowedIPs twice yields the same configuration as applying it
/// once; which sections are touched is fixed by `set_peer_entries`:
/// exactly those named "Peer".
pub proof fn lemma_set_peer_allowed_ips_idempotent(c: Seq<SectionModel>, ips: Seq<char>)
    ensures
        set_peer_entries(set_peer_entries(c, ips), ips) == set_peer_entries(c, ips),
{
    let once = set_peer_entries(c, ips);
    assert forall|j: int| 0 <= j < once.len() implies set_section_ips(once[j], ips) == once[j] by {
        if c[j].name == "Peer"@ {
            lemma_upsert_idempotent(c[j].entries, "AllowedIPs"@, ips);
        }
    }
    assert(set_peer_entries(once, ips) =~= once);
}

proof fn lemma_parse_lines_unique(
    lines: Seq<Seq<char>>,
    cur: Option<SectionModel>,
    acc: Seq<SectionModel>,
)
    requires
        forall|i: int| 0 <= i < acc.len() ==> unique_keys(#[trigger] acc[i].entries),
        cur matches Option::Some(s) ==> unique_keys(s.entries),
    ensures
        forall|i: int|
            0 <= i < parse_lines(lines, cur, acc).len() ==> unique_keys(
                #[trigger] parse_lines(lines, cur, acc)[i].entries,
            ),
    decreases lines.len(),
{
    if lines.len() == 0 {
        match cur {
            Option::None => {},
            Option::Some(s) => {
                assert forall|i: int| 0 <= i < acc.push(s).len() implies unique_keys(
                    #[trigger] acc.push(s)[i].entries,
                ) by {
                    if i < acc.len() {
                        assert(acc.push(s)[i] == acc[i]);
                    }
                }
            },
        }
    } else {
        let l = trim(lines[0]);
        let rest = lines.skip(1);
        if l.len() == 0 || l[0] == '#' {
            assert(parse_lines(lines, cur, acc) == parse_lines(rest, cur, acc));
            lemma_parse_lines_unique(rest, cur, acc);
        } else if is_header(l) {
            let acc2 = match cur {
                Option::None => acc,
                Option::Some(s) => acc.push(s),
            };
            assert(parse_lines(lines, cur, acc) == parse_lines(
                rest,
                Option::Some(SectionModel { name: trim_brackets(l), entries: Seq::empty() }),
                acc2,
            ));
            assert forall|i: int| 0 <= i < acc2.len() implies unique_keys(
                #[trigger] acc2[i].entries,
            ) by {
                match cur {
                    Option::None => {},
                    Option::Some(s) => {
                        if i < acc.len() {
                            assert(acc2[i] == acc[i]);
                        }
                    },
                }
            }
            lemma_parse_lines_unique(
                rest,
                Option::Some(SectionModel { name: trim_brackets(l), entries: Seq::empty() }),
                acc2,
            );
        } else {
            match cur {
                Option::None => {
                    assert(parse_lines(lines, cur, acc) == parse_lines(rest, cur, acc));
                    lemma_parse_lines_unique(rest, cur, acc);
                },
                Option::Some(s) => {
                    let i = find_first(l, '=');
                    if i < 0 {
                        assert(parse_lines(lines, cur, acc) == parse_lines(rest, cur, acc));
                        lemma_parse_lines_unique(rest, cur, acc);
                    } else {
                        let k = trim(l.take(i));
                        let v = trim(l.skip(i + 1));
                        assert(parse_lines(lines, cur, acc) == parse_lines(
                            rest,
                            Option::Some(
                                SectionModel { name: s.name, entries: upsert(s.entries, k, v) },
                            ),
                            acc,
                        ));
                        lemma_upsert_unique_keys(s.entries, k, v);
                        lemma_parse_lines_unique(
                            rest,
                            Option::Some(
                                SectionModel { name: s.name, entries: upsert(s.entries, k, v) },
                            ),
                            acc,
                        );
                    }
                },
            }
        }
    }
}

/// Law: whatever the text, every section a parse yields keeps its
/// keys unique.
pub proof fn lemma_parse_unique_keys(t: Seq<char>)
    ensures
        forall|i: int|
            0 <= i < parse_text(t).len() ==> unique_keys(#[trigger] parse_text(t)[i].entries),
{
    lemma_parse_lines_unique(split_on(t, '\n'), Option::None, Seq::empty());
}

impl WireguardConfig {
    /// Read a configuration out of raw text, as `load` does once the
    /// file's contents are in hand.
    pub fn parse(text: &str) -> (r: WireguardConfig)
        ensures
            r@ == parse_text(text@),
    {
        let lines = split_str(text, '\n');
        let nl: usize = lines.len();
        let mut sections: Vec<Section> = Vec::new();
        let mut cur_some: bool = false;
        let mut cur_name: String = String::new();
        let mut cur_entries: Vec<(String, String)> = Vec::new();
        let mut li: usize = 0;
        proof {
            assert(lines.deep_view().len() == nl);
            assert(lines.deep_view().skip(0) =~= lines.deep_view());
            assert(sections_view(sections@) =~= Seq::<SectionModel>::empty());
        }
        while li < nl
            invariant
                0 <= li <= nl,
                nl == lines.len(),
                lines.deep_view() == split_on(text@, '\n'),
                lines.deep_view().len() == nl,
                parse_text(text@) == parse_lines(
                    lines.deep_view().skip(li as int),
                    cur_model(cur_some, cur_name@, entries_view(cur_entries@)),
                    sections_view(sections@),
                ),
            decreases nl - li,
        {
            let ghost rem = lines.deep_view().skip(li as int);
            proof {
                assert(rem[0] == lines.deep_view()[li as int]);
                assert(lines.deep_view()[li as int] == lines@[li as int]@);
                assert(rem.skip(1) =~= lines.deep_view().skip(li as int + 1));
            }
            let l = trim_str(lines[li].as_str());
            let ln: usize = l.unicode_len();
            if ln == 0 || l.get_char(0) == '#' {
                // blank or comment: ignored
            } else if l.get_char(0) == '[' && l.get_char(ln - 1) == ']' {
                let name = trim_brackets_str(l).to_owned();
                if cur_some {
                    let ghost prev = sections_view(sections@);
                    sections.push(Section { name: cur_name, entries: cur_entries });
                    proof {
                        assert(sections_view(sections@) =~= prev.push(
                            Section { name: cur_name, entries: cur_entries }@,
                        ));
                    }
                } else {
                    proof {
                        assert(entries_view(Seq::<(String, String)>::empty()) =~= Seq::<
                            (Seq<char>, Seq<char>),
                        >::empty());
                    }
                }
                cur_name = name;
                cur_entries = Vec::new();
                cur_some = true;
                proof {
                    assert(entries_view(cur_entries@) =~= Seq::<(Seq<char>, Seq<char>)>::empty());
                }
            } else {
                if cur_some {
                    match find_char(l, '=') {
                        Option::None => {},
                        Option::Some(i) => {
                            let key = trim_str(l.substring_char(0, i)).to_owned();
                            let val = trim_str(l.substring_char(i + 1, ln)).to_owned();
                            proof {
                                assert(l@.subrange(0, i as int) =~= l@.take(i as int));
                                assert(l@.subrange(i as int + 1, ln as int) =~= l@.skip(
                                    i as int + 1,
                                ));
                            }
                            upsert_entry(&mut cur_entries, key, val);
                        },
                    }
                }
            }
            li = li + 1;
        }
        if cur_some {
            let ghost prev = sections_view(sections@);
            sections.push(Section { name: cur_name, entries: cur_entries });
            proof {
                assert(sections_view(sections@) =~= prev.push(
                    Section { name: cur_name, entries: cur_entries }@,
                ));
                assert(lines.deep_view().skip(nl as int) =~= Seq::<Seq<char>>::empty());
            }
        } else {
            proof {
                assert(lines.deep_view().skip(nl as int) =~= Seq::<Seq<char>>::empty());
            }
        }
        WireguardConfig { sections }
    }

    /// Write the configuration back out as text, as `save` does just
    /// before the file is written.
    #[verifier::loop_isolation(false)]
    pub fn render(&self) -> (r: String)
        ensures
            r@ == render_text(self@),
    {
        proof {
            reveal_strlit("[");
            reveal_strlit("]\n");
            reveal_strlit(" = ");
            reveal_strlit("\n");
            assert("["@ =~= seq!['[']);
            assert("]\n"@ =~= seq![']', '\n']);
            assert(" = "@ =~= seq![' ', '=', ' ']);
            assert("\n"@ =~= seq!['\n']);
        }
        let n: usize = self.sections.len();
        let mut out = String::new();
        let mut si: usize = 0;
        proof {
            assert(self@.skip(0) =~= self@);
            assert(out@ + render_text(self@) =~= render_text(self@));
        }
        while si < n
            invariant
                0 <= si <= n,
                n == self.sections.len(),
                self@.len() == n,
                render_text(self@) == out@ + render_text(self@.skip(si as int)),
            decreases n - si,
        {
            proof {
                assert(self@[si as int] == self.sections@[si as int]@);
                assert(self@.skip(si as int)[0] == self@[si as int]);
                assert(self@.skip(si as int).skip(1) =~= self@.skip(si as int + 1));
            }
            let sec = &self.sections[si];
            let ghost pre = out@;
            out.append("[");
            out.append(sec.name.as_str());
            out.append("]\n");
            proof {
                assert(out@ =~= pre + header_line(self@[si as int].name) + seq!['\n']);
            }
            let ghost ev = self@[si as int].entries;
            let en: usize = sec.entries.len();
            let mut ei: usize = 0;
            proof {
                assert(ev.skip(0) =~= ev);
            }
            while ei < en
                invariant
                    0 <= ei <= en,
                    en == sec.entries.len(),
                    ev == entries_view(sec.entries@),
                    ev.len() == en,
                    render_text(self@) == out@ + render_entries(ev.skip(ei as int)) + seq!['\n']
                        + render_text(self@.skip(si as int + 1)),
                decreases en - ei,
            {
                proof {
                    assert(ev[ei as int] == (sec.entries@[ei as int].0@, sec.entries@[ei as int].1@));
                    assert(ev.skip(ei as int)[0] == ev[ei as int]);
                    assert(ev.skip(ei as int).skip(1) =~= ev.skip(ei as int + 1));
                }
                let ghost epre = out@;
                out.append(sec.entries[ei].0.as_str());
                out.append(" = ");
                out.append(sec.entries[ei].1.as_str());
                out.append("\n");
                proof {
                    assert(out@ =~= epre + entry_line(ev[ei as int]) + seq!['\n']);
                }
                ei = ei + 1;
            }
            proof {
                assert(ev.skip(en as int) =~= Seq::<(Seq<char>, Seq<char>)>::empty());
                assert(render_entries(ev.skip(en as int)) =~= Seq::<char>::empty());
            }
            out.append("\n");
            si = si + 1;
        }
        proof {
            assert(self@.skip(n as int) =~= Seq::<SectionModel>::empty());
        }
        out
    }

    /// Give every section named "Peer" the new AllowedIPs value,
    /// inserting the key or overwriting it in place.
    pub fn set_peer_allowed_ips(&mut self, ips: &str)
        ensures
            final(self)@ == set_peer_entries(old(self)@, ips@),
    {
        let n: usize = self.sections.len();
        let mut i: usize = 0;
        while i < n
            invariant
                0 <= i <= n,
                n == self.sections.len(),
                self@.len() == n,
                old(self)@.len() == n,
                forall|j: int| i <= j < n ==> self@[j] == old(self)@[j],
                forall|j: int|
                    0 <= j < i ==> self@[j] == set_section_ips(old(self)@[j], ips@),
            decreases n - i,
        {
            proof {
                assert(self@[i as int] == self.sections@[i as int]@);
            }
            if str_eq(self.sections[i].name.as_str(), "Peer") {
                let ghost before = self.sections@;
                let mut sec = self.sections.remove(i);
                let ghost old_sec = sec@;
                upsert_entry(&mut sec.entries, "AllowedIPs".to_owned(), ips.to_owned());
                proof {
                    assert(sec@.name == old_sec.name);
                    assert(sec@.entries == upsert(old_sec.entries, "AllowedIPs"@, ips@));
                }
                self.sections.insert(i, sec);
                proof {
                    vstd::seq_lib::lemma_update_is_remove_insert(before, i as int, sec);
                    assert(self.sections@ == before.update(i as int, sec));
                    assert forall|j: int| 0 <= j < n implies self@[j] == (if j == i as int {
                        set_section_ips(old(self)@[j], ips@)
                    } else {
                        sections_view(before)[j]
                    }) by {
                        assert(self@[j] == self.sections@[j]@);
                        if j != i as int {
                            assert(self.sections@[j] == before[j]);
                        }
                    }
                }
            } else {
                proof {
                    assert(set_section_ips(old(self)@[i as int], ips@) == old(self)@[i as int]);
                }
            }
            i = i + 1;
        }
        proof {
            assert(self@ =~= set_peer_entries(old(self)@, ips@));
        }
    }

    /// The value of "Endpoint" in the first section named "Peer",
    /// or None when no such section or key exists.
    pub fn get_peer_endpoint(&self) -> (r: Option<String>)
        ensures
            view_opt_str(r) == peer_endpoint(self@),
    {
        let n: usize = self.sections.len();
        let mut i: usize = 0;
        while i < n
            invariant
                0 <= i <= n,
                n == self.sections.len(),
                self@.len() == n,
                forall|j: int| 0 <= j < i ==> self@[j].name != "Peer"@,
            decreases n - i,
        {
            proof {
                assert(self@[i as int] == self.sections@[i as int]@);
            }
            if str_eq(self.sections[i].name.as_str(), "Peer") {
                proof {
                    lemma_sec_index_at(self@, "Peer"@, i as int);
                }
                let sec = &self.sections[i];
                let ghost ev = self@[i as int].entries;
                let en: usize = sec.entries.len();
                let mut j: usize = 0;
                while j < en
                    invariant
                        0 <= j <= en,
                        en == sec.entries.len(),
                        ev == entries_view(sec.entries@),
                        ev.len() == en,
                        peer_endpoint(self@) == lookup(ev, "Endpoint"@),
                        forall|m: int| 0 <= m < j ==> ev[m].0 != "Endpoint"@,
                    decreases en - j,
                {
                    proof {
                        assert(ev[j as int] == (sec.entries@[j as int].0@, sec.entries@[j as int].1@));
                    }
                    if str_eq(sec.entries[j].0.as_str(), "Endpoint") {
                        proof {
                            lemma_key_index_at(ev, "Endpoint"@, j as int);
                        }
                        return Some(sec.entries[j].1.clone());
                    }
                    j = j + 1;
                }
                proof {
                    lemma_key_index_at(ev, "Endpoint"@, en as int);
                }
                return None;
            }
            i = i + 1;
        }
        proof {
            lemma_sec_index_at(self@, "Peer"@, n as int);
        }
        None
    }
}

} // verus!
