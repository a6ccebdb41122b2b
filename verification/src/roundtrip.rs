//! The save/load round trip: a well-formed configuration, rendered
//! to text and parsed back, comes back unchanged — every section
//! name, every key and every value, each in its original order.

use crate::config::{
    entry_line, header_line, is_header, lemma_key_index_at, parse_lines, parse_text,
    render_entries, render_text, unique_keys, upsert, SectionModel,
};
use crate::strutil::{
    contains_char, find_first, is_bracket, is_space, lemma_find_first_at, lemma_trim_of_trimmed,
    split_acc, split_on, trim, trim_back, trim_back_brackets, trim_brackets, trim_front,
    trim_front_brackets,
};
use vstd::prelude::*;

verus! {

// ------------------------------------------------------------------
// Well-formed data
// ------------------------------------------------------------------

/// A key as `render` writes it and `parse` reads it back: nonempty,
/// free of newlines and `=`, trimmed, and not opening a comment or
/// a header.
pub open spec fn wf_key(k: Seq<char>) -> bool {
    k.len() > 0 && !contains_char(k, '\n') && !contains_char(k, '=') && !is_space(k[0])
        && !is_space(k.last()) && k[0] != '#' && k[0] != '['
}

/// A value as `render` writes it and `parse` reads it back:
/// nonempty, free of newlines, trimmed.
pub open spec fn wf_val(v: Seq<char>) -> bool {
    v.len() > 0 && !contains_char(v, '\n') && !is_space(v[0]) && !is_space(v.last())
}

/// A section name: free of newlines, with no bracket at either end.
pub open spec fn wf_name(n: Seq<char>) -> bool {
    !contains_char(n, '\n') && (n.len() > 0 ==> !is_bracket(n[0]) && !is_bracket(n.last()))
}

pub open spec fn wf_section(s: SectionModel) -> bool {
    wf_name(s.name) && unique_keys(s.entries) && (forall|i: int|
        0 <= i < s.entries.len() ==> wf_key(s.entries[i].0) && wf_val(s.entries[i].1))
}

pub open spec fn wf_config(c: Seq<SectionModel>) -> bool {
    forall|i: int| 0 <= i < c.len() ==> wf_section(c[i])
}

pub open spec fn push_opt(acc: Seq<SectionModel>, cur: Option<SectionModel>) -> Seq<SectionModel> {
    match cur {
        Option::None => acc,
        Option::Some(s) => acc.push(s),
    }
}

// ------------------------------------------------------------------
// Lines of the rendered text
// ------------------------------------------------------------------

/// Splitting off one newline-terminated, newline-free line.
proof fn lemma_split_line(l: Seq<char>, rest: Seq<char>, cur: Seq<char>)
    requires
        !contains_char(l, '\n'),
    ensures
        split_acc(l + seq!['\n'] + rest, '\n', cur) == seq![cur + l] + split_acc(
            rest,
            '\n',
            Seq::empty(),
        ),
    decreases l.len(),
{
    let t = l + seq!['\n'] + rest;
    if l.len() == 0 {
        assert(t[0] == '\n');
        assert(t.skip(1) =~= rest);
        assert(cur + l =~= cur);
    } else {
        assert(t[0] == l[0]);
        assert(l[0] != '\n');
        assert(t.skip(1) =~= l.skip(1) + seq!['\n'] + rest);
        assert(!contains_char(l.skip(1), '\n')) by {
            if contains_char(l.skip(1), '\n') {
                let i = choose|i: int| 0 <= i < l.skip(1).len() && l.skip(1)[i] == '\n';
                assert(l[i + 1] == '\n');
            }
        }
        lemma_split_line(l.skip(1), rest, cur.push(l[0]));
        assert(cur.push(l[0]) + l.skip(1) =~= cur + l);
    }
}

/// A header line holds no newline.
proof fn lemma_header_no_newline(n: Seq<char>)
    requires
        wf_name(n),
    ensures
        !contains_char(header_line(n), '\n'),
{
    let h = header_line(n);
    if contains_char(h, '\n') {
        let i = choose|i: int| 0 <= i < h.len() && h[i] == '\n';
        if 0 < i < h.len() - 1 {
            assert(n[i - 1] == '\n');
            assert(contains_char(n, '\n'));
        }
    }
}

/// An entry line holds no newline.
proof fn lemma_entry_no_newline(k: Seq<char>, v: Seq<char>)
    requires
        wf_key(k),
        wf_val(v),
    ensures
        !contains_char(entry_line((k, v)), '\n'),
{
    let l = entry_line((k, v));
    let kn = k.len() as int;
    if contains_char(l, '\n') {
        let i = choose|i: int| 0 <= i < l.len() && l[i] == '\n';
        if i < kn {
            assert(l[i] == k[i]);
            assert(contains_char(k, '\n'));
        } else if i >= kn + 3 {
            assert(l[i] == v[i - kn - 3]);
            assert(contains_char(v, '\n'));
        }
    }
}

// ------------------------------------------------------------------
// Reading one rendered line back
// ------------------------------------------------------------------

/// The header `[Name]` is already trimmed and gives the name back.
proof fn lemma_header_reads_back(n: Seq<char>)
    requires
        wf_name(n),
    ensures
        trim(header_line(n)) == header_line(n),
        is_header(header_line(n)),
        header_line(n)[0] == '[',
        trim_brackets(header_line(n)) == n,
{
    let h = header_line(n);
    assert(h[0] == '[');
    assert(h.last() == ']');
    lemma_trim_of_trimmed(h);
    // strip the one leading bracket
    assert(h.skip(1) =~= n + seq![']']);
    assert(is_bracket(h[0]));
    assert(trim_front_brackets(h) == trim_front_brackets(n + seq![']']));
    if n.len() == 0 {
        assert(n + seq![']'] =~= seq![']']);
        assert(is_bracket(seq![']'][0]));
        assert(seq![']'].skip(1) =~= Seq::<char>::empty());
        assert(trim_front_brackets(seq![']']) == trim_front_brackets(Seq::<char>::empty()));
        assert(trim_front_brackets(Seq::<char>::empty()) =~= Seq::<char>::empty());
        assert(trim_back_brackets(Seq::<char>::empty()) =~= Seq::<char>::empty());
        assert(trim_brackets(h) =~= n);
    } else {
        assert((n + seq![']'])[0] == n[0]);
        assert(!is_bracket(n[0]));
        assert(trim_front_brackets(n + seq![']']) == n + seq![']']);
        assert((n + seq![']']).last() == ']');
        assert(is_bracket((n + seq![']']).last()));
        assert((n + seq![']']).drop_last() =~= n);
        assert(trim_back_brackets(n + seq![']']) == trim_back_brackets(n));
        assert(!is_bracket(n.last()));
        assert(trim_back_brackets(n) == n);
        assert(trim_brackets(h) == n);
    }
}

/// The line `key = value` is already trimmed, is neither blank nor
/// comment nor header, and splits on its first `=` into the key and
/// the value again.
proof fn lemma_entry_reads_back(k: Seq<char>, v: Seq<char>)
    requires
        wf_key(k),
        wf_val(v),
    ensures
        trim(entry_line((k, v))) == entry_line((k, v)),
        entry_line((k, v)).len() > 0,
        entry_line((k, v))[0] != '#',
        !is_header(entry_line((k, v))),
        find_first(entry_line((k, v)), '=') == k.len() + 1,
        trim(entry_line((k, v)).take(k.len() as int + 1)) == k,
        trim(entry_line((k, v)).skip(k.len() as int + 2)) == v,
{
    let l = entry_line((k, v));
    let kn = k.len() as int;
    assert(l.len() == kn + 3 + v.len());
    assert(l[0] == k[0]);
    assert(l.last() == v.last());
    lemma_trim_of_trimmed(l);
    assert(l[0] != '[');
    // the first `=` sits right after the key
    assert forall|j: int| 0 <= j < kn + 1 implies l[j] != '=' by {
        if j < kn {
            assert(l[j] == k[j]);
            if l[j] == '=' {
                assert(contains_char(k, '='));
            }
        } else {
            assert(l[j] == ' ');
        }
    }
    assert(l[kn + 1] == '=');
    lemma_find_first_at(l, '=', kn + 1);
    // the key comes back from the left half
    let left = l.take(kn + 1);
    assert(left =~= k + seq![' ']);
    assert(left[0] == k[0]);
    assert(trim_front(left) == left);
    assert(left.last() == ' ');
    assert(left.drop_last() =~= k);
    assert(trim_back(left) == trim_back(k));
    assert(trim_back(k) == k);
    assert(trim(left) == k);
    // the value comes back from the right half
    let right = l.skip(kn + 2);
    assert(right =~= seq![' '] + v);
    assert(right[0] == ' ');
    assert(right.skip(1) =~= v);
    assert(trim_front(right) == trim_front(v));
    assert(trim_front(v) == v);
    assert(trim_back(v) == v);
    assert(trim(right) == v);
}

// ------------------------------------------------------------------
// Reading a rendered block of entries back
// ------------------------------------------------------------------

proof fn lemma_parse_entries(
    es: Seq<(Seq<char>, Seq<char>)>,
    rest: Seq<char>,
    name: Seq<char>,
    done: Seq<(Seq<char>, Seq<char>)>,
    acc: Seq<SectionModel>,
)
    requires
        forall|i: int| 0 <= i < es.len() ==> wf_key(es[i].0) && wf_val(es[i].1),
        unique_keys(done + es),
    ensures
        parse_lines(
            split_on(render_entries(es) + rest, '\n'),
            Option::Some(SectionModel { name, entries: done }),
            acc,
        ) == parse_lines(
            split_on(rest, '\n'),
            Option::Some(SectionModel { name, entries: done + es }),
            acc,
        ),
    decreases es.len(),
{
    if es.len() == 0 {
        assert(render_entries(es) + rest =~= rest);
        assert(done + es =~= done);
        assert(SectionModel { name, entries: done + es } =~= SectionModel {
            name,
            entries: done,
        });
    } else {
        let k = es[0].0;
        let v = es[0].1;
        let l = entry_line((k, v));
        let kn = k.len() as int;
        let rest2 = render_entries(es.skip(1)) + rest;
        assert(render_entries(es) + rest =~= l + seq!['\n'] + rest2);
        lemma_entry_no_newline(k, v);
        lemma_split_line(l, rest2, Seq::empty());
        assert(Seq::empty() + l =~= l);
        let pieces = split_on(render_entries(es) + rest, '\n');
        assert(pieces == seq![l] + split_on(rest2, '\n'));
        assert(pieces[0] == l);
        assert(pieces.len() > 0);
        assert(pieces.skip(1) =~= split_on(rest2, '\n'));
        lemma_entry_reads_back(k, v);
        // the line is stored by upsert, which appends the fresh key
        assert(l.take(find_first(l, '=')) == l.take(kn + 1));
        assert(l.skip(find_first(l, '=') + 1) == l.skip(kn + 2));
        assert forall|j: int| 0 <= j < done.len() implies (done + es)[j].0 == done[j].0 by {}
        assert((done + es)[done.len() as int].0 == k);
        assert forall|j: int| 0 <= j < done.len() implies done[j].0 != k by {
            assert((done + es)[j].0 == done[j].0);
        }
        lemma_key_index_at(done, k, done.len() as int);
        assert(upsert(done, k, v) == done.push((k, v)));
        assert(done.push((k, v)) =~= done + seq![(k, v)]);
        // the remaining entries still carry fresh, well-formed keys
        assert forall|i: int|
            0 <= i < es.skip(1).len() implies wf_key(es.skip(1)[i].0) && wf_val(
            es.skip(1)[i].1,
        ) by {
            assert(es.skip(1)[i] == es[i + 1]);
        }
        assert((done + seq![(k, v)]) + es.skip(1) =~= done + es);
        assert(unique_keys((done + seq![(k, v)]) + es.skip(1)));
        lemma_parse_entries(es.skip(1), rest, name, done + seq![(k, v)], acc);
        assert(done + seq![(k, v)] + es.skip(1) =~= done + es);
        assert(SectionModel { name, entries: (done + seq![(k, v)]) + es.skip(1) }
            =~= SectionModel { name, entries: done + es });
    }
}

// ------------------------------------------------------------------
// Reading the whole rendered text back
// ------------------------------------------------------------------

proof fn lemma_parse_render(
    c: Seq<SectionModel>,
    cur: Option<SectionModel>,
    acc: Seq<SectionModel>,
)
    requires
        wf_config(c),
    ensures
        parse_lines(split_on(render_text(c), '\n'), cur, acc) == push_opt(acc, cur) + c,
    decreases c.len(),
{
    if c.len() == 0 {
        assert(render_text(c) =~= Seq::<char>::empty());
        let pieces = split_on(Seq::<char>::empty(), '\n');
        assert(pieces =~= seq![Seq::<char>::empty()]);
        assert(pieces[0].len() == 0);
        assert(trim_front(Seq::<char>::empty()) =~= Seq::<char>::empty());
        assert(trim_back(Seq::<char>::empty()) =~= Seq::<char>::empty());
        assert(trim(pieces[0]) =~= Seq::<char>::empty());
        assert(pieces.skip(1) =~= Seq::<Seq<char>>::empty());
        assert(parse_lines(pieces, cur, acc) == parse_lines(Seq::<Seq<char>>::empty(), cur, acc));
        assert(parse_lines(Seq::<Seq<char>>::empty(), cur, acc) == push_opt(acc, cur));
        assert(push_opt(acc, cur) + c =~= push_opt(acc, cur));
    } else {
        let s0 = c[0];
        assert(wf_section(s0));
        let h = header_line(s0.name);
        let after_entries = seq!['\n'] + render_text(c.skip(1));
        let rest1 = render_entries(s0.entries) + after_entries;
        assert(render_text(c) =~= h + seq!['\n'] + rest1);
        lemma_header_no_newline(s0.name);
        lemma_split_line(h, rest1, Seq::empty());
        assert(Seq::empty() + h =~= h);
        let pieces = split_on(render_text(c), '\n');
        assert(pieces == seq![h] + split_on(rest1, '\n'));
        assert(pieces[0] == h);
        assert(pieces.len() > 0);
        assert(pieces.skip(1) =~= split_on(rest1, '\n'));
        lemma_header_reads_back(s0.name);
        assert(h.len() > 0 && h[0] == '[');
        // the header closes `cur` and opens the new section
        let acc2 = push_opt(acc, cur);
        assert(parse_lines(pieces, cur, acc) == parse_lines(
            split_on(rest1, '\n'),
            Option::Some(SectionModel { name: s0.name, entries: Seq::empty() }),
            acc2,
        ));
        // the entry lines fill the new section
        assert(Seq::<(Seq<char>, Seq<char>)>::empty() + s0.entries =~= s0.entries);
        assert(unique_keys(Seq::<(Seq<char>, Seq<char>)>::empty() + s0.entries));
        lemma_parse_entries(s0.entries, after_entries, s0.name, Seq::empty(), acc2);
        assert(SectionModel {
            name: s0.name,
            entries: Seq::<(Seq<char>, Seq<char>)>::empty() + s0.entries,
        } =~= s0);
        // the blank separator line changes nothing
        lemma_split_line(Seq::empty(), render_text(c.skip(1)), Seq::empty());
        assert(Seq::<char>::empty() + Seq::<char>::empty() =~= Seq::<char>::empty());
        assert(after_entries =~= Seq::<char>::empty() + seq!['\n'] + render_text(c.skip(1)));
        let pieces2 = split_on(after_entries, '\n');
        assert(pieces2 == seq![Seq::<char>::empty()] + split_on(render_text(c.skip(1)), '\n'));
        assert(pieces2[0].len() == 0);
        assert(trim_front(Seq::<char>::empty()) =~= Seq::<char>::empty());
        assert(trim_back(Seq::<char>::empty()) =~= Seq::<char>::empty());
        assert(trim(pieces2[0]) =~= Seq::<char>::empty());
        assert(pieces2.len() > 0);
        assert(pieces2.skip(1) =~= split_on(render_text(c.skip(1)), '\n'));
        assert(parse_lines(pieces2, Option::Some(s0), acc2) == parse_lines(
            pieces2.skip(1),
            Option::Some(s0),
            acc2,
        ));
        // and the remaining sections read back by induction
        assert(wf_config(c.skip(1))) by {
            assert forall|i: int| 0 <= i < c.skip(1).len() implies wf_section(c.skip(1)[i]) by {
                assert(c.skip(1)[i] == c[i + 1]);
            }
        }
        lemma_parse_render(c.skip(1), Option::Some(s0), acc2);
        assert(push_opt(acc2, Option::Some(s0)) + c.skip(1) =~= push_opt(acc, cur) + c);
    }
}

/// Law: the save/load round trip is the identity on well-formed
/// configurations. Rendering a configuration to text and parsing
/// that text back preserves every section name, every key and every
/// value, all in their original order.
pub proof fn lemma_load_save_round_trip(c: Seq<SectionModel>)
    requires
        wf_config(c),
    ensures
        parse_text(render_text(c)) == c,
{
    lemma_parse_render(c, Option::None, Seq::empty());
    assert(push_opt(Seq::empty(), Option::<SectionModel>::None) + c =~= c);
}

} // verus!
