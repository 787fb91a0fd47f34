//! The lock store: the ordered mapping from dependency name to the git URL
//! and revision last fetched, with its textual form and the proof that
//! writing and re-reading a lock store yields the same mapping.

use vstd::prelude::*;
use vstd::assert_seqs_equal;
use crate::strutil::find_char_from;
use crate::strutil::lemma_lex_cmp_eq;
use crate::strutil::lemma_lex_cmp_trans;
use crate::strutil::lex_cmp;
use crate::strutil::str_cmp;
use crate::strutil::str_eq;
use crate::strutil::str_starts_with;
use crate::strutil::str_ends_with;

verus! {

broadcast use vstd::string::group_string_axioms;

/// The recorded fetch result for one dependency.
pub struct PackageLock {
    pub git: String,
    pub rev: String,
}

/// One lock-file line group at the specification level: name, url, revision.
pub type LockEntryV = (Seq<char>, Seq<char>, Seq<char>);

/// The lock store: a mapping from dependency name to `PackageLock`, held in
/// ascending name order with at most one entry per name, so the serialized
/// form is deterministic.
pub struct LockFile {
    packages: Vec<(String, PackageLock)>,
}

/// The mapping a package vector stands for: one (name, url, revision) triple
/// per element, in order.
spec fn pkgs_view(v: Seq<(String, PackageLock)>) -> Seq<LockEntryV> {
    v.map(|i: int, e: (String, PackageLock)| (e.0@, e.1.git@, e.1.rev@))
}

impl View for LockFile {
    type V = Seq<LockEntryV>;

    closed spec fn view(&self) -> Seq<LockEntryV> {
        pkgs_view(self.packages@)
    }
}

/// Characters allowed in a recorded value: printable ASCII other than the
/// quote and the backslash, so a value never ends its own quoted line.
pub open spec fn plain_char(c: char) -> bool {
    32 <= (c as u32) < 127 && c != '"' && c != '\\'
}

pub open spec fn plain_seq(s: Seq<char>) -> bool {
    forall|i: int| 0 <= i < s.len() ==> plain_char(s[i])
}

/// Characters allowed in a dependency name used as a lock-file key.
pub open spec fn key_char(c: char) -> bool {
    let u = (c as u32) as int;
    (48 <= u <= 57) || (65 <= u <= 90) || (97 <= u <= 122) || u == 45 || u == 95
}

pub open spec fn key_seq(s: Seq<char>) -> bool {
    s.len() > 0 && (forall|i: int| 0 <= i < s.len() ==> key_char(s[i]))
}

/// An entry whose name and values fit the textual form.
pub open spec fn entry_renderable(e: LockEntryV) -> bool {
    key_seq(e.0) && plain_seq(e.1) && plain_seq(e.2)
}

/// No two entries share a name.
pub open spec fn entries_unique(es: Seq<LockEntryV>) -> bool {
    forall|i: int, j: int|
        0 <= i < j < es.len() ==> (#[trigger] es[i]).0 != (#[trigger] es[j]).0
}

/// Names strictly ascend: the canonical order of the mapping, which makes
/// the serialized form deterministic.
pub open spec fn entries_sorted(es: Seq<LockEntryV>) -> bool {
    forall|i: int, j: int|
        0 <= i < j < es.len() ==> lex_cmp((#[trigger] es[i]).0, (#[trigger] es[j]).0) < 0
}

/// A strictly ascending store never repeats a name.
pub proof fn lemma_sorted_unique(es: Seq<LockEntryV>)
    requires
        entries_sorted(es),
    ensures
        entries_unique(es),
{
    assert forall|i: int, j: int|
        0 <= i < j < es.len() implies (#[trigger] es[i]).0 != (#[trigger] es[j]).0 by {
        lemma_lex_cmp_eq(es[i].0, es[j].0);
    }
}

impl LockFile {
    /// Names strictly ascend, so each name appears at most once and the
    /// serialized form is canonical.
    pub open spec fn wf(&self) -> bool {
        entries_sorted(self@)
    }

    /// The store can be written out and read back exactly.
    pub open spec fn renderable(&self) -> bool {
        self.wf() && (forall|i: int| 0 <= i < self@.len() ==> entry_renderable(#[trigger] self@[i]))
    }

    pub open spec fn contains_name(&self, name: Seq<char>) -> bool {
        exists|i: int| 0 <= i < self@.len() && (#[trigger] self@[i]).0 == name
    }

    /// An empty lock store.
    pub fn new() -> (r: LockFile)
        ensures
            r@ == Seq::<LockEntryV>::empty(),
            r.wf(),
    {
        LockFile { packages: Vec::new() }
    }

    pub fn len(&self) -> (r: usize)
        ensures
            r == self@.len(),
    {
        self.packages.len()
    }

    /// The recorded lock for `name`, if one exists.
    pub fn get(&self, name: &str) -> (r: Option<&PackageLock>)
        ensures
            match r {
                Some(pl) => exists|i: int|
                    0 <= i < self@.len() && (#[trigger] self@[i]).0 == name@ && pl.git@
                        == self@[i].1 && pl.rev@ == self@[i].2,
                None => !self.contains_name(name@),
            },
    {
        let n = self.packages.len();
        let mut idx: usize = 0;
        while idx < n
            invariant
                n == self@.len(),
                idx <= n,
                forall|j: int| 0 <= j < idx ==> (#[trigger] self@[j]).0 != name@,
        decreases n - idx,
        {
            if str_eq(self.packages[idx].0.as_str(), name) {
                assert(self@[idx as int].0 == name@);
                return Some(&self.packages[idx].1);
            }
            idx += 1;
        }
        None
    }

    /// Record `name -> {git, rev}`: a known name is replaced in place, a
    /// fresh name enters at its ascending position, so the store stays in
    /// canonical name order.
    pub fn insert(&mut self, name: String, git: String, rev: String)
        requires
            old(self).wf(),
        ensures
            final(self).wf(),
            old(self).contains_name(name@) ==> exists|i: int|
                0 <= i < old(self)@.len() && (#[trigger] old(self)@[i]).0 == name@ && final(self)@
                    == old(self)@.update(i, (name@, git@, rev@)),
            !old(self).contains_name(name@) ==> exists|i: int|
                0 <= i <= old(self)@.len() && final(self)@ == old(self)@.insert(
                    i,
                    (name@, git@, rev@),
                ) && (forall|j: int|
                    0 <= j < i ==> lex_cmp((#[trigger] old(self)@[j]).0, name@) < 0) && (
                forall|j: int|
                    i <= j < old(self)@.len() ==> lex_cmp(name@, (#[trigger] old(self)@[j]).0)
                        < 0),
    {
        let n = self.packages.len();
        let mut idx: usize = 0;
        while idx < n
            invariant
                n == self@.len(),
                idx <= n,
                old(self).wf(),
                *self == *old(self),
                forall|j: int| 0 <= j < idx ==> lex_cmp((#[trigger] self@[j]).0, name@) < 0,
        decreases n - idx,
        {
            let rel = str_cmp(self.packages[idx].0.as_str(), name.as_str());
            proof {
                lemma_lex_cmp_eq(old(self)@[idx as int].0, name@);
            }
            if rel == 0 {
                assert(old(self)@[idx as int].0 == name@);
                self.packages.set(idx, (name, PackageLock { git, rev }));
                proof {
                    assert_seqs_equal!(
                        self@ == old(self)@.update(idx as int, (name@, git@, rev@))
                    );
                    assert forall|i: int, j: int|
                        0 <= i < j < self@.len() implies lex_cmp(
                        (#[trigger] self@[i]).0,
                        (#[trigger] self@[j]).0,
                    ) < 0 by {
                        assert(self@[i].0 == old(self)@[i].0);
                        assert(self@[j].0 == old(self)@[j].0);
                        assert(lex_cmp(old(self)@[i].0, old(self)@[j].0) < 0);
                    }
                }
                return ;
            }
            if rel > 0 {
                // every earlier name sorts below, this one and the rest above
                proof {
                    lemma_insert_position_facts(old(self)@, name@, idx as int);
                }
                self.packages.insert(idx, (name, PackageLock { git, rev }));
                proof {
                    assert_seqs_equal!(
                        self@ == old(self)@.insert(idx as int, (name@, git@, rev@))
                    );
                    lemma_sorted_after_insert(old(self)@, name@, git@, rev@, idx as int);
                }
                return ;
            }
            idx += 1;
        }
        proof {
            lemma_insert_position_facts(old(self)@, name@, n as int);
        }
        self.packages.push((name, PackageLock { git, rev }));
        proof {
            assert_seqs_equal!(
                self@ == old(self)@.insert(n as int, (name@, git@, rev@))
            );
            lemma_sorted_after_insert(old(self)@, name@, git@, rev@, n as int);
        }
    }
}

/// At a sorted insertion point every earlier name sorts below the new one
/// and every later name above it, so the name is not yet present.
proof fn lemma_insert_position_facts(es: Seq<LockEntryV>, name: Seq<char>, i: int)
    requires
        entries_sorted(es),
        0 <= i <= es.len(),
        forall|j: int| 0 <= j < i ==> lex_cmp((#[trigger] es[j]).0, name) < 0,
        i < es.len() ==> lex_cmp(es[i].0, name) > 0,
    ensures
        forall|j: int| i <= j < es.len() ==> lex_cmp(name, (#[trigger] es[j]).0) < 0,
        forall|j: int| 0 <= j < es.len() ==> (#[trigger] es[j]).0 != name,
{
    assert forall|j: int| i <= j < es.len() implies lex_cmp(name, (#[trigger] es[j]).0) < 0 by {
        crate::strutil::lemma_lex_cmp_antisym(es[i].0, name);
        assert(lex_cmp(name, es[i].0) < 0);
        if j > i {
            assert(lex_cmp(es[i].0, es[j].0) < 0);
            lemma_lex_cmp_trans(name, es[i].0, es[j].0);
        }
    }
    assert forall|j: int| 0 <= j < es.len() implies (#[trigger] es[j]).0 != name by {
        lemma_lex_cmp_eq(es[j].0, name);
        if j >= i {
            crate::strutil::lemma_lex_cmp_antisym(name, es[j].0);
        }
    }
}

/// Inserting at the sorted position keeps the store strictly ascending.
proof fn lemma_sorted_after_insert(
    es: Seq<LockEntryV>,
    name: Seq<char>,
    git: Seq<char>,
    rev: Seq<char>,
    i: int,
)
    requires
        entries_sorted(es),
        0 <= i <= es.len(),
        forall|j: int| 0 <= j < i ==> lex_cmp((#[trigger] es[j]).0, name) < 0,
        forall|j: int| i <= j < es.len() ==> lex_cmp(name, (#[trigger] es[j]).0) < 0,
    ensures
        entries_sorted(es.insert(i, (name, git, rev))),
{
    let out = es.insert(i, (name, git, rev));
    assert forall|p: int, q: int|
        0 <= p < q < out.len() implies lex_cmp((#[trigger] out[p]).0, (#[trigger] out[q]).0)
        < 0 by {
        if p < i && q < i {
            assert(out[p] == es[p] && out[q] == es[q]);
        } else if p < i && q == i {
            assert(out[p] == es[p]);
        } else if p < i && q > i {
            assert(out[p] == es[p] && out[q] == es[q - 1]);
        } else if p == i {
            assert(out[q] == es[q - 1]);
        } else {
            assert(out[p] == es[p - 1] && out[q] == es[q - 1]);
        }
    }
}

// ---------------------------------------------------------------------------
// Textual form
// ---------------------------------------------------------------------------
/// `s` holds no line break.
pub open spec fn no_nl(s: Seq<char>) -> bool {
    forall|i: int| 0 <= i < s.len() ==> s[i] != '\n'
}

/// The header line of one entry.
pub open spec fn spec_line1(name: Seq<char>) -> Seq<char> {
    "[package."@ + name + "]"@
}

/// The url line of one entry.
pub open spec fn spec_line2(git: Seq<char>) -> Seq<char> {
    "git = \""@ + git + "\""@
}

/// The revision line of one entry.
pub open spec fn spec_line3(rev: Seq<char>) -> Seq<char> {
    "rev = \""@ + rev + "\""@
}

/// The three terminated lines of one entry.
pub open spec fn spec_render_entry(e: LockEntryV) -> Seq<char> {
    spec_line1(e.0) + "\n"@ + spec_line2(e.1) + "\n"@ + spec_line3(e.2) + "\n"@
}

/// The whole lock text: the entries' lines in order.
pub open spec fn spec_render(es: Seq<LockEntryV>) -> Seq<char>
    decreases es.len(),
{
    if es.len() == 0 {
        Seq::empty()
    } else {
        spec_render_entry(es[0]) + spec_render(es.drop_first())
    }
}

/// Index of the first line break, if any.
pub open spec fn find_nl(s: Seq<char>) -> Option<int>
    decreases s.len(),
{
    if s.len() == 0 {
        None
    } else if s[0] == '\n' {
        Some(0)
    } else {
        match find_nl(s.drop_first()) {
            Some(i) => Some(i + 1),
            None => None,
        }
    }
}

/// The first line (without its break) and everything after the break.
pub open spec fn split_line(s: Seq<char>) -> Option<(Seq<char>, Seq<char>)> {
    match find_nl(s) {
        Some(i) => Some((s.take(i), s.skip(i + 1))),
        None => None,
    }
}

/// The middle of `line` when it begins with `pre` and ends with `suf`.
pub open spec fn strip_wrap(line: Seq<char>, pre: Seq<char>, suf: Seq<char>) -> Option<Seq<char>> {
    if line.len() >= pre.len() + suf.len() && line.take(pre.len() as int) == pre && line.skip(
        line.len() - suf.len(),
    ) == suf {
        Some(line.subrange(pre.len() as int, line.len() - suf.len()))
    } else {
        None
    }
}

/// One entry read off the front of `s`, with the remainder.
pub open spec fn parse_entry(s: Seq<char>) -> Option<(LockEntryV, Seq<char>)> {
    match split_line(s) {
        None => None,
        Some((l1, r1)) => match split_line(r1) {
            None => None,
            Some((l2, r2)) => match split_line(r2) {
                None => None,
                Some((l3, rest)) => match (
                    strip_wrap(l1, "[package."@, "]"@),
                    strip_wrap(l2, "git = \""@, "\""@),
                    strip_wrap(l3, "rev = \""@, "\""@),
                ) {
                    (Some(n), Some(g), Some(v)) => if key_seq(n) && plain_seq(g) && plain_seq(v) {
                        Some(((n, g, v), rest))
                    } else {
                        None
                    },
                    _ => None,
                },
            },
        },
    }
}

/// All entries of a lock text, or `None` when the text is not of the form
/// the renderer writes.
pub open spec fn spec_parse(s: Seq<char>) -> Option<Seq<LockEntryV>>
    decreases s.len(),
{
    if s.len() == 0 {
        Some(Seq::empty())
    } else {
        match parse_entry(s) {
            None => None,
            Some((e, rest)) => if rest.len() < s.len() {
                match spec_parse(rest) {
                    None => None,
                    Some(es) => Some(seq![e] + es),
                }
            } else {
                None
            },
        }
    }
}

/// A parsed text whose entries also form a valid mapping in canonical
/// ascending name order.
pub open spec fn parse_ok(s: Seq<char>) -> bool {
    match spec_parse(s) {
        Some(es) => entries_sorted(es),
        None => false,
    }
}

// ---------------------------------------------------------------------------
// Lemmas about the textual form
// ---------------------------------------------------------------------------
proof fn lemma_format_literals()
    ensures
        no_nl("[package."@),
        no_nl("]"@),
        no_nl("git = \""@),
        no_nl("rev = \""@),
        no_nl("\""@),
        "[package."@.len() == 9,
        "]"@.len() == 1,
        "git = \""@.len() == 7,
        "rev = \""@.len() == 7,
        "\""@.len() == 1,
        "\n"@.len() == 1,
        "\n"@[0] == '\n',
{
    reveal_strlit("[package.");
    reveal_strlit("]");
    reveal_strlit("git = \"");
    reveal_strlit("rev = \"");
    reveal_strlit("\"");
    reveal_strlit("\n");
    assert forall|i: int| 0 <= i < "[package."@.len() implies "[package."@[i] != '\n' by {
        if i == 0 {
        } else if i == 1 {
        } else if i == 2 {
        } else if i == 3 {
        } else if i == 4 {
        } else if i == 5 {
        } else if i == 6 {
        } else if i == 7 {
        } else if i == 8 {
        } else {
            assert(i == 9);
        }
    }
    assert forall|i: int| 0 <= i < "git = \""@.len() implies "git = \""@[i] != '\n' by {
        if i == 0 {
        } else if i == 1 {
        } else if i == 2 {
        } else if i == 3 {
        } else if i == 4 {
        } else if i == 5 {
        } else {
            assert(i == 6);
        }
    }
    assert forall|i: int| 0 <= i < "rev = \""@.len() implies "rev = \""@[i] != '\n' by {
        if i == 0 {
        } else if i == 1 {
        } else if i == 2 {
        } else if i == 3 {
        } else if i == 4 {
        } else if i == 5 {
        } else {
            assert(i == 6);
        }
    }
}

proof fn lemma_no_nl_concat(a: Seq<char>, b: Seq<char>)
    requires
        no_nl(a),
        no_nl(b),
    ensures
        no_nl(a + b),
{
    assert forall|i: int| 0 <= i < (a + b).len() implies (a + b)[i] != '\n' by {
        if i < a.len() {
            assert((a + b)[i] == a[i]);
        } else {
            assert((a + b)[i] == b[i - a.len()]);
        }
    }
}

/// A key never holds a line break.
proof fn lemma_key_no_nl(s: Seq<char>)
    requires
        key_seq(s),
    ensures
        no_nl(s),
{
    assert forall|i: int| 0 <= i < s.len() implies s[i] != '\n' by {
        assert(key_char(s[i]));
        assert(('\n' as u32) == 10);
    }
}

/// A plain value never holds a line break.
proof fn lemma_plain_no_nl(s: Seq<char>)
    requires
        plain_seq(s),
    ensures
        no_nl(s),
{
    assert forall|i: int| 0 <= i < s.len() implies s[i] != '\n' by {
        assert(plain_char(s[i]));
        assert(('\n' as u32) == 10);
    }
}

proof fn lemma_find_nl_spec(s: Seq<char>)
    ensures
        match find_nl(s) {
            Some(i) => 0 <= i < s.len() && s[i] == '\n' && (forall|j: int|
                0 <= j < i ==> s[j] != '\n'),
            None => no_nl(s),
        },
    decreases s.len(),
{
    if s.len() == 0 {
    } else if s[0] == '\n' {
    } else {
        let d = s.drop_first();
        lemma_find_nl_spec(d);
        assert(forall|j: int| 0 <= j < d.len() ==> #[trigger] d[j] == s[j + 1]);
        match find_nl(d) {
            Some(i) => {
                assert(s[i + 1] == d[i]);
                assert forall|j: int| 0 <= j < i + 1 implies s[j] != '\n' by {
                    if j > 0 {
                        assert(d[j - 1] != '\n');
                        assert(s[j] == d[j - 1]);
                    }
                }
            },
            None => {
                assert forall|j: int| 0 <= j < s.len() implies s[j] != '\n' by {
                    if j > 0 {
                        assert(d[j - 1] != '\n');
                        assert(s[j] == d[j - 1]);
                    }
                }
            },
        }
    }
}

proof fn lemma_find_nl_exact(s: Seq<char>, i: int)
    requires
        0 <= i < s.len(),
        s[i] == '\n',
        forall|j: int| 0 <= j < i ==> s[j] != '\n',
    ensures
        find_nl(s) == Some(i),
{
    lemma_find_nl_spec(s);
    match find_nl(s) {
        None => {
            assert(s[i] != '\n');
        },
        Some(k) => {
            if k < i {
                assert(s[k] != '\n');
            } else if k > i {
                assert(s[i] != '\n');
            }
        },
    }
}

proof fn lemma_split_line_concat(l: Seq<char>, rest: Seq<char>)
    requires
        no_nl(l),
    ensures
        split_line(l + "\n"@ + rest) == Some((l, rest)),
{
    lemma_format_literals();
    let s = l + "\n"@ + rest;
    assert(s[l.len() as int] == '\n');
    assert forall|j: int| 0 <= j < l.len() implies s[j] != '\n' by {
        assert(s[j] == l[j]);
    }
    lemma_find_nl_exact(s, l.len() as int);
    assert(s.take(l.len() as int) =~= l);
    assert(s.skip(l.len() as int + 1) =~= rest);
}

proof fn lemma_strip_wrap_exact(pre: Seq<char>, mid: Seq<char>, suf: Seq<char>)
    ensures
        strip_wrap(pre + mid + suf, pre, suf) == Some(mid),
{
    let line = pre + mid + suf;
    assert(line.len() == pre.len() + mid.len() + suf.len());
    assert(line.take(pre.len() as int) =~= pre);
    assert(line.skip(line.len() - suf.len()) =~= suf);
    assert(line.subrange(pre.len() as int, line.len() - suf.len()) =~= mid);
}

/// Reading one entry off its own rendering recovers the entry exactly,
/// whatever text follows.
proof fn lemma_parse_render_entry(e: LockEntryV, tail: Seq<char>)
    requires
        entry_renderable(e),
    ensures
        parse_entry(spec_render_entry(e) + tail) == Some((e, tail)),
        spec_render_entry(e).len() > 0,
{
    lemma_format_literals();
    let l1 = spec_line1(e.0);
    let l2 = spec_line2(e.1);
    let l3 = spec_line3(e.2);
    let s = spec_render_entry(e) + tail;
    lemma_key_no_nl(e.0);
    lemma_plain_no_nl(e.1);
    lemma_plain_no_nl(e.2);
    lemma_no_nl_concat("[package."@ + e.0, "]"@);
    lemma_no_nl_concat("[package."@, e.0);
    lemma_no_nl_concat("git = \""@ + e.1, "\""@);
    lemma_no_nl_concat("git = \""@, e.1);
    lemma_no_nl_concat("rev = \""@ + e.2, "\""@);
    lemma_no_nl_concat("rev = \""@, e.2);
    assert(no_nl(l1));
    assert(no_nl(l2));
    assert(no_nl(l3));
    let r1 = l2 + "\n"@ + (l3 + "\n"@ + tail);
    let r2 = l3 + "\n"@ + tail;
    assert(s =~= l1 + "\n"@ + r1);
    lemma_split_line_concat(l1, r1);
    lemma_split_line_concat(l2, r2);
    lemma_split_line_concat(l3, tail);
    lemma_strip_wrap_exact("[package."@, e.0, "]"@);
    lemma_strip_wrap_exact("git = \""@, e.1, "\""@);
    lemma_strip_wrap_exact("rev = \""@, e.2, "\""@);
    assert(parse_entry(s) == Some((e, tail)));
}

/// Law: the lock text of any sequence of renderable entries parses back to
/// exactly that sequence.
pub proof fn lemma_spec_parse_render(es: Seq<LockEntryV>)
    requires
        forall|i: int| 0 <= i < es.len() ==> entry_renderable(#[trigger] es[i]),
    ensures
        spec_parse(spec_render(es)) == Some(es),
    decreases es.len(),
{
    if es.len() == 0 {
        assert(spec_render(es) == Seq::<char>::empty());
        assert(spec_parse(spec_render(es)) == Some(Seq::<LockEntryV>::empty()));
        assert(es =~= Seq::<LockEntryV>::empty());
    } else {
        let e0 = es[0];
        let rest = es.drop_first();
        let s = spec_render(es);
        lemma_parse_render_entry(e0, spec_render(rest));
        assert(forall|i: int| 0 <= i < rest.len() ==> rest[i] == es[i + 1]);
        lemma_spec_parse_render(rest);
        assert(s.len() == spec_render_entry(e0).len() + spec_render(rest).len());
        assert(parse_entry(s) == Some((e0, spec_render(rest))));
        assert(spec_parse(s) == Some(seq![e0] + rest));
        assert(seq![e0] + rest =~= es);
    }
}

/// Law: writing a lock store and reading the text back yields the identical
/// ordered mapping of `name -> {git, rev}`.
pub proof fn lemma_lock_round_trip(lf: LockFile)
    requires
        lf.renderable(),
    ensures
        spec_parse(spec_render(lf@)) == Some(lf@),
        parse_ok(spec_render(lf@)),
{
    lemma_spec_parse_render(lf@);
}

proof fn lemma_split_line_sound(s: Seq<char>, l: Seq<char>, r: Seq<char>)
    requires
        split_line(s) == Some((l, r)),
    ensures
        s == l + "\n"@ + r,
        no_nl(l),
{
    lemma_format_literals();
    lemma_find_nl_spec(s);
    match find_nl(s) {
        None => {},
        Some(i) => {
            assert(l == s.take(i));
            assert(r == s.skip(i + 1));
            assert(s =~= s.take(i) + "\n"@ + s.skip(i + 1));
            assert forall|j: int| 0 <= j < l.len() implies l[j] != '\n' by {
                assert(l[j] == s[j]);
            }
        },
    }
}

proof fn lemma_strip_wrap_sound(line: Seq<char>, pre: Seq<char>, suf: Seq<char>, mid: Seq<char>)
    requires
        strip_wrap(line, pre, suf) == Some(mid),
    ensures
        line == pre + mid + suf,
{
    assert(line =~= line.take(pre.len() as int) + line.subrange(
        pre.len() as int,
        line.len() - suf.len(),
    ) + line.skip(line.len() - suf.len()));
}

proof fn lemma_parse_entry_sound(s: Seq<char>, e: LockEntryV, rest: Seq<char>)
    requires
        parse_entry(s) == Some((e, rest)),
    ensures
        s == spec_render_entry(e) + rest,
        entry_renderable(e),
        rest.len() < s.len(),
{
    match split_line(s) {
        None => {},
        Some((l1, r1)) => {
            lemma_split_line_sound(s, l1, r1);
            match split_line(r1) {
                None => {},
                Some((l2, r2)) => {
                    lemma_split_line_sound(r1, l2, r2);
                    match split_line(r2) {
                        None => {},
                        Some((l3, tail)) => {
                            lemma_split_line_sound(r2, l3, tail);
                            match (
                                strip_wrap(l1, "[package."@, "]"@),
                                strip_wrap(l2, "git = \""@, "\""@),
                                strip_wrap(l3, "rev = \""@, "\""@),
                            ) {
                                (Some(n), Some(g), Some(v)) => {
                                    lemma_strip_wrap_sound(l1, "[package."@, "]"@, n);
                                    lemma_strip_wrap_sound(l2, "git = \""@, "\""@, g);
                                    lemma_strip_wrap_sound(l3, "rev = \""@, "\""@, v);
                                    assert(s =~= spec_render_entry(e) + rest);
                                },
                                _ => {},
                            }
                        },
                    }
                },
            }
        },
    }
}

/// Law: a valid lock text is exactly the rendering of the store it parses
/// to. Together with the round-trip law, rendering and parsing are inverse
/// bijections between renderable stores and valid lock texts.
pub proof fn lemma_parse_render_inverse(s: Seq<char>, es: Seq<LockEntryV>)
    requires
        spec_parse(s) == Some(es),
    ensures
        spec_render(es) == s,
    decreases s.len(),
{
    if s.len() == 0 {
        assert(es =~= Seq::<LockEntryV>::empty());
        assert(spec_render(es) =~= s);
    } else {
        match parse_entry(s) {
            None => {},
            Some((e, rest)) => {
                lemma_parse_entry_sound(s, e, rest);
                match spec_parse(rest) {
                    None => {},
                    Some(es2) => {
                        lemma_parse_render_inverse(rest, es2);
                        assert(es == seq![e] + es2);
                        assert(es.len() > 0);
                        assert(es[0] == e);
                        assert(es.drop_first() =~= es2);
                        assert(spec_render(es) == spec_render_entry(e) + spec_render(es2));
                        assert(spec_render_entry(e) + rest =~= s);
                    },
                }
            },
        }
    }
}

/// Law: the serialized form is canonical. Two well-formed stores holding
/// the same entries are the same sequence, so equal name -> {git, rev}
/// mappings serialize to identical text.
pub proof fn lemma_render_canonical(x: Seq<LockEntryV>, y: Seq<LockEntryV>)
    requires
        entries_sorted(x),
        entries_sorted(y),
        forall|e: LockEntryV| x.contains(e) == y.contains(e),
    ensures
        x == y,
        spec_render(x) == spec_render(y),
    decreases x.len(),
{
    if x.len() == 0 {
        if y.len() > 0 {
            assert(y.contains(y[0]));
        }
        assert(x =~= y);
    } else if y.len() == 0 {
        assert(x.contains(x[0]));
    } else {
        assert(x.contains(x[0]));
        let j = choose|j: int| 0 <= j < y.len() && y[j] == x[0];
        assert(y.contains(y[0]));
        let k = choose|k: int| 0 <= k < x.len() && x[k] == y[0];
        if j > 0 {
            assert(lex_cmp(y[0].0, y[j].0) < 0);
            lemma_lex_cmp_eq(x[0].0, x[0].0);
            if k == 0 {
                assert(y[0].0 == x[0].0);
            } else {
                assert(lex_cmp(x[0].0, x[k].0) < 0);
                lemma_lex_cmp_trans(x[0].0, y[0].0, x[0].0);
            }
        }
        assert(x[0] == y[0]);
        let xt = x.drop_first();
        let yt = y.drop_first();
        assert(forall|p: int| 0 <= p < xt.len() ==> #[trigger] xt[p] == x[p + 1]);
        assert(forall|p: int| 0 <= p < yt.len() ==> #[trigger] yt[p] == y[p + 1]);
        assert forall|e: LockEntryV| xt.contains(e) == yt.contains(e) by {
            if xt.contains(e) {
                let t = choose|t: int| 0 <= t < xt.len() && xt[t] == e;
                assert(x[t + 1] == e);
                assert(x.contains(e));
                let m = choose|m: int| 0 <= m < y.len() && y[m] == e;
                if m == 0 {
                    assert(e == x[0]);
                    assert(lex_cmp(x[0].0, x[t + 1].0) < 0);
                    lemma_lex_cmp_eq(x[0].0, x[0].0);
                }
                assert(yt[m - 1] == e);
                assert(yt.contains(e));
            }
            if yt.contains(e) {
                let t = choose|t: int| 0 <= t < yt.len() && yt[t] == e;
                assert(y[t + 1] == e);
                assert(y.contains(e));
                let m = choose|m: int| 0 <= m < x.len() && x[m] == e;
                if m == 0 {
                    assert(e == y[0]);
                    assert(lex_cmp(y[0].0, y[t + 1].0) < 0);
                    lemma_lex_cmp_eq(y[0].0, y[0].0);
                }
                assert(xt[m - 1] == e);
                assert(xt.contains(e));
            }
        }
        lemma_render_canonical(xt, yt);
        assert(x.len() == y.len());
        assert forall|p: int| 0 <= p < x.len() implies x[p] == y[p] by {
            if p > 0 {
                assert(xt[p - 1] == x[p]);
                assert(yt[p - 1] == y[p]);
            }
        }
        assert(x =~= y);
    }
}

// ---------------------------------------------------------------------------
// Executable render and parse
// ---------------------------------------------------------------------------
fn check_plain(s: &str) -> (r: bool)
    ensures
        r == plain_seq(s@),
{
    let n = s.unicode_len();
    let mut i: usize = 0;
    while i < n
        invariant
            n == s@.len(),
            i <= n,
            forall|j: int| 0 <= j < i ==> plain_char(s@[j]),
        decreases n - i,
    {
        let c = s.get_char(i);
        let u = c as u32;
        if !(32 <= u && u < 127) || c == '"' || c == '\\' {
            assert(!plain_char(s@[i as int]));
            return false;
        }
        i += 1;
    }
    true
}

fn check_key(s: &str) -> (r: bool)
    ensures
        r == key_seq(s@),
{
    let n = s.unicode_len();
    if n == 0 {
        return false;
    }
    let mut i: usize = 0;
    while i < n
        invariant
            n == s@.len(),
            i <= n,
            forall|j: int| 0 <= j < i ==> key_char(s@[j]),
        decreases n - i,
    {
        let u = s.get_char(i) as u32;
        if !((48 <= u && u <= 57) || (65 <= u && u <= 90) || (97 <= u && u <= 122) || u == 45 || u
            == 95) {
            assert(!key_char(s@[i as int]));
            return false;
        }
        i += 1;
    }
    true
}

proof fn lemma_render_concat(a: Seq<LockEntryV>, b: Seq<LockEntryV>)
    ensures
        spec_render(a + b) == spec_render(a) + spec_render(b),
    decreases a.len(),
{
    if a.len() == 0 {
        assert(a + b =~= b);
        assert(spec_render(a) + spec_render(b) =~= spec_render(b));
    } else {
        assert((a + b).len() > 0);
        assert((a + b)[0] == a[0]);
        assert((a + b).drop_first() =~= a.drop_first() + b);
        lemma_render_concat(a.drop_first(), b);
        assert(spec_render_entry(a[0]) + (spec_render(a.drop_first()) + spec_render(b)) =~= (
        spec_render_entry(a[0]) + spec_render(a.drop_first())) + spec_render(b));
    }
}

proof fn lemma_render_take_step(v: Seq<LockEntryV>, i: int)
    requires
        0 <= i < v.len(),
    ensures
        spec_render(v.take(i + 1)) == spec_render(v.take(i)) + spec_render_entry(v[i]),
{
    let one = seq![v[i]];
    assert(v.take(i + 1) =~= v.take(i) + one);
    lemma_render_concat(v.take(i), one);
    assert(one.len() == 1);
    assert(one[0] == v[i]);
    assert(one.drop_first() =~= Seq::<LockEntryV>::empty());
    assert(spec_render(one.drop_first()) == Seq::<char>::empty());
    assert(spec_render(one) == spec_render_entry(v[i]) + Seq::<char>::empty());
    assert(spec_render_entry(v[i]) + Seq::<char>::empty() =~= spec_render_entry(v[i]));
}

impl LockFile {
    /// Whether every entry fits the textual form and the names strictly
    /// ascend.
    pub fn check_renderable(&self) -> (r: bool)
        ensures
            r == self.renderable(),
    {
        let n = self.packages.len();
        let mut i: usize = 0;
        while i < n
            invariant
                n == self@.len(),
                i <= n,
                forall|p: int, q: int|
                    0 <= p < q < i ==> lex_cmp((#[trigger] self@[p]).0, (#[trigger] self@[q]).0)
                        < 0,
                forall|p: int| 0 <= p < i ==> entry_renderable(#[trigger] self@[p]),
            decreases n - i,
        {
            let entry = &self.packages[i];
            proof {
                assert(self@[i as int] == (entry.0@, entry.1.git@, entry.1.rev@));
            }
            if !check_key(entry.0.as_str()) {
                proof {
                    assert(!entry_renderable(self@[i as int]));
                }
                return false;
            }
            if !check_plain(entry.1.git.as_str()) {
                proof {
                    assert(!entry_renderable(self@[i as int]));
                }
                return false;
            }
            if !check_plain(entry.1.rev.as_str()) {
                proof {
                    assert(!entry_renderable(self@[i as int]));
                }
                return false;
            }
            let mut j: usize = 0;
            while j < i
                invariant
                    n == self@.len(),
                    i < n,
                    j <= i,
                    forall|q: int|
                        0 <= q < j ==> lex_cmp((#[trigger] self@[q]).0, self@[i as int].0) < 0,
                decreases i - j,
            {
                if str_cmp(self.packages[j].0.as_str(), self.packages[i].0.as_str()) >= 0 {
                    assert(lex_cmp(self@[j as int].0, self@[i as int].0) >= 0);
                    return false;
                }
                j += 1;
            }
            i += 1;
        }
        true
    }

    /// The lock text of this store, or `None` when some name or value does
    /// not fit the textual form.
    #[verifier::rlimit(50)]
    pub fn render(&self) -> (r: Option<String>)
        ensures
            match r {
                Some(s) => self.renderable() && s@ == spec_render(self@),
                None => !self.renderable(),
            },
    {
        if !self.check_renderable() {
            return None;
        }
        let n = self.packages.len();
        let mut out = String::new();
        proof {
            assert(self@.take(0) =~= Seq::<LockEntryV>::empty());
        }
        let mut idx: usize = 0;
        while idx < n
            invariant
                n == self@.len(),
                idx <= n,
                out@ == spec_render(self@.take(idx as int)),
            decreases n - idx,
        {
            let ghost prev = out@;
            let entry = &self.packages[idx];
            out.append("[package.");
            out.append(entry.0.as_str());
            out.append("]");
            out.append("\n");
            out.append("git = \"");
            out.append(entry.1.git.as_str());
            out.append("\"");
            out.append("\n");
            out.append("rev = \"");
            out.append(entry.1.rev.as_str());
            out.append("\"");
            out.append("\n");
            proof {
                lemma_render_take_step(self@, idx as int);
                assert(out@ =~= prev + spec_render_entry(self@[idx as int]));
            }
            idx += 1;
        }
        proof {
            assert(self@.take(n as int) =~= self@);
        }
        Some(out)
    }
}

/// The middle of `line` between the literal prefix and suffix, if both match.
fn strip_line(l: &str, pre: &str, suf: &str) -> (r: Option<String>)
    ensures
        match r {
            Some(m) => strip_wrap(l@, pre@, suf@) == Some(m@),
            None => strip_wrap(l@, pre@, suf@) is None,
        },
{
    let llen = l.unicode_len();
    let plen = pre.unicode_len();
    let flen = suf.unicode_len();
    if llen < plen || llen - plen < flen {
        return None;
    }
    if !str_starts_with(l, pre) {
        return None;
    }
    if !str_ends_with(l, suf) {
        return None;
    }
    let mid = l.substring_char(plen, llen - flen);
    Some(String::from_str(mid))
}

/// One entry read at position `pos` of the text, with the position after it.
fn parse_entry_at(s: &str, pos: usize) -> (r: Option<(String, String, String, usize)>)
    requires
        pos <= s@.len(),
    ensures
        match r {
            Some(t) => pos < t.3 <= s@.len() && parse_entry(s@.skip(pos as int)) == Some(
                ((t.0@, t.1@, t.2@), s@.skip(t.3 as int)),
            ),
            None => parse_entry(s@.skip(pos as int)) is None,
        },
{
    let slen = s.unicode_len();
    let ghost tail0 = s@.skip(pos as int);
    // line 1
    let j1 = match find_char_from(s, pos, '\n') {
        Some(j) => j,
        None => {
            proof {
                lemma_find_nl_spec(tail0);
                if find_nl(tail0) is Some {
                    let k = find_nl(tail0)->Some_0;
                    assert(tail0[k] == '\n');
                    assert(tail0[k] == s@[pos + k]);
                }
            }
            return None;
        },
    };
    proof {
        assert(tail0[(j1 - pos) as int] == s@[j1 as int]);
        assert forall|j: int| 0 <= j < j1 - pos implies tail0[j] != '\n' by {
            assert(tail0[j] == s@[pos + j]);
        }
        lemma_find_nl_exact(tail0, (j1 - pos) as int);
        assert(tail0.take((j1 - pos) as int) =~= s@.subrange(pos as int, j1 as int));
        assert(tail0.skip((j1 - pos) as int + 1) =~= s@.skip(j1 as int + 1));
    }
    let l1 = s.substring_char(pos, j1);
    let ghost tail1 = s@.skip(j1 as int + 1);
    // line 2
    let j2 = match find_char_from(s, j1 + 1, '\n') {
        Some(j) => j,
        None => {
            proof {
                lemma_find_nl_spec(tail1);
                if find_nl(tail1) is Some {
                    let k = find_nl(tail1)->Some_0;
                    assert(tail1[k] == '\n');
                    assert(tail1[k] == s@[j1 + 1 + k]);
                }
            }
            return None;
        },
    };
    proof {
        assert(tail1[(j2 - (j1 + 1)) as int] == s@[j2 as int]);
        assert forall|j: int| 0 <= j < j2 - (j1 + 1) implies tail1[j] != '\n' by {
            assert(tail1[j] == s@[j1 + 1 + j]);
        }
        lemma_find_nl_exact(tail1, (j2 - (j1 + 1)) as int);
        assert(tail1.take((j2 - (j1 + 1)) as int) =~= s@.subrange(j1 as int + 1, j2 as int));
        assert(tail1.skip((j2 - (j1 + 1)) as int + 1) =~= s@.skip(j2 as int + 1));
    }
    let l2 = s.substring_char(j1 + 1, j2);
    let ghost tail2 = s@.skip(j2 as int + 1);
    // line 3
    let j3 = match find_char_from(s, j2 + 1, '\n') {
        Some(j) => j,
        None => {
            proof {
                lemma_find_nl_spec(tail2);
                if find_nl(tail2) is Some {
                    let k = find_nl(tail2)->Some_0;
                    assert(tail2[k] == '\n');
                    assert(tail2[k] == s@[j2 + 1 + k]);
                }
            }
            return None;
        },
    };
    proof {
        assert(tail2[(j3 - (j2 + 1)) as int] == s@[j3 as int]);
        assert forall|j: int| 0 <= j < j3 - (j2 + 1) implies tail2[j] != '\n' by {
            assert(tail2[j] == s@[j2 + 1 + j]);
        }
        lemma_find_nl_exact(tail2, (j3 - (j2 + 1)) as int);
        assert(tail2.take((j3 - (j2 + 1)) as int) =~= s@.subrange(j2 as int + 1, j3 as int));
        assert(tail2.skip((j3 - (j2 + 1)) as int + 1) =~= s@.skip(j3 as int + 1));
    }
    let l3 = s.substring_char(j2 + 1, j3);
    let name = match strip_line(l1, "[package.", "]") {
        Some(m) => m,
        None => {
            return None;
        },
    };
    let git = match strip_line(l2, "git = \"", "\"") {
        Some(m) => m,
        None => {
            return None;
        },
    };
    let rev = match strip_line(l3, "rev = \"", "\"") {
        Some(m) => m,
        None => {
            return None;
        },
    };
    if !check_key(name.as_str()) {
        return None;
    }
    if !check_plain(git.as_str()) {
        return None;
    }
    if !check_plain(rev.as_str()) {
        return None;
    }
    proof {
        assert(parse_entry(tail0) == Some(((name@, git@, rev@), s@.skip(j3 as int + 1))));
    }
    Some((name, git, rev, j3 + 1))
}

/// Prepend an accumulator to a parse result.
spec fn cons_parse(acc: Seq<LockEntryV>, rest: Option<Seq<LockEntryV>>) -> Option<
    Seq<LockEntryV>,
> {
    match rest {
        Some(tl) => Some(acc + tl),
        None => None,
    }
}

/// Read a whole lock text. Returns `None` when the text is not of the form
/// the renderer writes, or when a dependency name repeats.
pub fn parse_lock(s: &str) -> (r: Option<LockFile>)
    ensures
        match r {
            Some(lf) => lf.wf() && spec_parse(s@) == Some(lf@),
            None => !parse_ok(s@),
        },
{
    let slen = s.unicode_len();
    let mut packages: Vec<(String, PackageLock)> = Vec::new();
    let mut pos: usize = 0;
    proof {
        assert(s@.skip(0) =~= s@);
        assert(pkgs_view(packages@) =~= Seq::<LockEntryV>::empty());
        match spec_parse(s@) {
            Some(x) => {
                assert(pkgs_view(packages@) + x =~= x);
            },
            None => {},
        }
    }
    while pos < slen
        invariant
            slen == s@.len(),
            pos <= slen,
            spec_parse(s@) == cons_parse(pkgs_view(packages@), spec_parse(s@.skip(pos as int))),
        decreases slen - pos,
    {
        let ghost acc0 = pkgs_view(packages@);
        match parse_entry_at(s, pos) {
            Some((name, git, rev, newpos)) => {
                let ghost ev = (name@, git@, rev@);
                proof {
                    assert(s@.skip(pos as int).len() == slen - pos > 0);
                    assert(s@.skip(newpos as int).len() < s@.skip(pos as int).len());
                }
                packages.push((name, PackageLock { git, rev }));
                proof {
                    let acc1 = pkgs_view(packages@);
                    assert(acc1 =~= acc0.push(ev));
                    // one unfolding of the parser on the old tail
                    assert(spec_parse(s@.skip(pos as int)) == cons_parse(
                        seq![ev],
                        spec_parse(s@.skip(newpos as int)),
                    ));
                    match spec_parse(s@.skip(newpos as int)) {
                        Some(tl) => {
                            assert(acc0 + (seq![ev] + tl) =~= acc1 + tl);
                        },
                        None => {},
                    }
                }
                pos = newpos;
            },
            None => {
                return None;
            },
        }
    }
    proof {
        assert(s@.skip(pos as int) =~= Seq::<char>::empty());
        assert(spec_parse(s@.skip(pos as int)) == Some(Seq::<LockEntryV>::empty()));
        assert(pkgs_view(packages@) + Seq::<LockEntryV>::empty() =~= pkgs_view(packages@));
    }
    let lf = LockFile { packages };
    if lf.check_renderable() {
        Some(lf)
    } else {
        // the parser admits every rendered entry, so only repeated names
        // can fail the check; either way the text is not a valid mapping
        proof {
            if lf.wf() {
                lemma_parsed_entries_renderable(s@, lf@);
            }
        }
        None
    }
}

/// Whatever `spec_parse` accepts satisfies the per-entry form checks.
proof fn lemma_parsed_entries_renderable(s: Seq<char>, es: Seq<LockEntryV>)
    requires
        spec_parse(s) == Some(es),
    ensures
        forall|i: int| 0 <= i < es.len() ==> entry_renderable(#[trigger] es[i]),
    decreases s.len(),
{
    if s.len() == 0 {
    } else {
        match parse_entry(s) {
            None => {},
            Some((e, rest)) => {
                if rest.len() < s.len() {
                    match spec_parse(rest) {
                        None => {},
                        Some(es2) => {
                            lemma_parsed_entries_renderable(rest, es2);
                            assert(es == seq![e] + es2);
                            assert(entry_renderable(e));
                            assert(forall|i: int|
                                0 <= i < es2.len() ==> es[i + 1] == es2[i]);
                        },
                    }
                }
            },
        }
    }
}

} // verus!
