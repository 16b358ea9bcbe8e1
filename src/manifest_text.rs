//! The manifest document: an array of `[[elements]]` tables, each with a
//! `path` and a `content_type` string, one key per line, in either order.
use vstd::prelude::*;
use crate::config::{EElementType, SConfigElement};
use crate::paths::{chars_of, string_of};

verus! {

/// The characters written as a backslash and a letter inside a string.
pub open spec fn is_escaped(c: char) -> bool {
    c == '\\' || c == '"' || c == '\n' || c == '\r' || c == '\t'
}

pub open spec fn escape_letter(c: char) -> char {
    if c == '\n' {
        'n'
    } else if c == '\r' {
        'r'
    } else if c == '\t' {
        't'
    } else {
        c
    }
}

/// The character that a backslash and `c` stand for in a string.
pub open spec fn unescape_letter(c: char) -> Option<char> {
    if c == '\\' || c == '"' {
        Some(c)
    } else if c == 'n' {
        Some('\n')
    } else if c == 'r' {
        Some('\r')
    } else if c == 't' {
        Some('\t')
    } else if c == 'b' {
        Some('\u{8}')
    } else if c == 'f' {
        Some('\u{c}')
    } else {
        None
    }
}

pub open spec fn escape_char(c: char) -> Seq<char> {
    if is_escaped(c) {
        seq!['\\', escape_letter(c)]
    } else {
        seq![c]
    }
}

/// The body of a double-quoted string that holds `s`.
pub open spec fn escape(s: Seq<char>) -> Seq<char>
    decreases s.len(),
{
    if s.len() == 0 {
        Seq::empty()
    } else {
        escape_char(s[0]) + escape(s.drop_first())
    }
}

pub open spec fn kind_tag(k: EElementType) -> Seq<char> {
    match k {
        EElementType::File => seq!['F', 'i', 'l', 'e'],
        EElementType::Folder => seq!['F', 'o', 'l', 'd', 'e', 'r'],
        EElementType::Anything => seq!['A', 'n', 'y', 't', 'h', 'i', 'n', 'g'],
    }
}

pub open spec fn tag_kind(t: Seq<char>) -> Option<EElementType> {
    if t == kind_tag(EElementType::File) {
        Some(EElementType::File)
    } else if t == kind_tag(EElementType::Folder) {
        Some(EElementType::Folder)
    } else if t == kind_tag(EElementType::Anything) {
        Some(EElementType::Anything)
    } else {
        None
    }
}

#[verifier::opaque]
pub open spec fn table_head() -> Seq<char> {
    seq!['[', '[', 'e', 'l', 'e', 'm', 'e', 'n', 't', 's', ']', ']', '\n', 'p', 'a', 't', 'h', ' ', '=', ' ']
}

#[verifier::opaque]
pub open spec fn kind_key() -> Seq<char> {
    seq!['\n', 'c', 'o', 'n', 't', 'e', 'n', 't', '_', 't', 'y', 'p', 'e', ' ', '=', ' ']
}

#[verifier::opaque]
pub open spec fn kind_head() -> Seq<char> {
    seq!['[', '[', 'e', 'l', 'e', 'm', 'e', 'n', 't', 's', ']', ']', '\n', 'c', 'o', 'n', 't', 'e', 'n', 't', '_', 't', 'y', 'p', 'e', ' ', '=', ' ']
}

#[verifier::opaque]
pub open spec fn path_key() -> Seq<char> {
    seq!['\n', 'p', 'a', 't', 'h', ' ', '=', ' ']
}

/// The table that records one entry, followed by a blank line.
#[verifier::opaque]
pub open spec fn entry_text(e: (Seq<char>, EElementType)) -> Seq<char> {
    table_head() + seq!['"'] + escape(e.0) + seq!['"'] + kind_key() + seq!['"'] + kind_tag(e.1)
        + seq!['"', '\n', '\n']
}

/// The whole document for a sequence of entries, in order.
pub open spec fn manifest_text(es: Seq<(Seq<char>, EElementType)>) -> Seq<char>
    decreases es.len(),
{
    if es.len() == 0 {
        Seq::empty()
    } else {
        entry_text(es[0]) + manifest_text(es.drop_first())
    }
}

/// A double-quoted string body from `i` on: its value and the position past
/// the closing quote.
pub open spec fn basic_at(s: Seq<char>, i: int) -> Option<(Seq<char>, int)>
    decreases s.len() - i,
{
    if i < 0 || i >= s.len() {
        None
    } else if s[i] == '"' {
        Some((Seq::empty(), i + 1))
    } else if s[i] == '\\' {
        if i + 1 >= s.len() {
            None
        } else {
            match unescape_letter(s[i + 1]) {
                None => None,
                Some(c) => match basic_at(s, i + 2) {
                    Some((t, j)) => Some((seq![c] + t, j)),
                    None => None,
                },
            }
        }
    } else {
        match basic_at(s, i + 1) {
            Some((t, j)) => Some((seq![s[i]] + t, j)),
            None => None,
        }
    }
}

/// A single-quoted string body from `i` on, taken as it stands.
pub open spec fn literal_at(s: Seq<char>, i: int) -> Option<(Seq<char>, int)>
    decreases s.len() - i,
{
    if i < 0 || i >= s.len() {
        None
    } else if s[i] == '\'' {
        Some((Seq::empty(), i + 1))
    } else {
        match literal_at(s, i + 1) {
            Some((t, j)) => Some((seq![s[i]] + t, j)),
            None => None,
        }
    }
}

/// A quoted string of either kind starting at `i`.
pub open spec fn quoted_at(s: Seq<char>, i: int) -> Option<(Seq<char>, int)> {
    if 0 <= i < s.len() && s[i] == '"' {
        basic_at(s, i + 1)
    } else if 0 <= i < s.len() && s[i] == '\'' {
        literal_at(s, i + 1)
    } else {
        None
    }
}

/// `t` stands in `s` at position `i`.
pub open spec fn has_at(s: Seq<char>, i: int, t: Seq<char>) -> bool {
    0 <= i && i + t.len() <= s.len() && s.subrange(i, i + t.len()) == t
}

/// The end of a table's last line is at `m`.
pub open spec fn line_ends_at(s: Seq<char>, m: int) -> bool {
    m == s.len() || (0 <= m < s.len() && s[m] == '\n')
}

/// One table starting at `i`, with its two keys in either order: the entry
/// and the position at the end of its last line.
#[verifier::opaque]
pub open spec fn entry_at(s: Seq<char>, i: int) -> Option<((Seq<char>, EElementType), int)> {
    if has_at(s, i, table_head()) {
        match quoted_at(s, i + table_head().len()) {
            None => None,
            Some((p, j)) => if !has_at(s, j, kind_key()) {
                None
            } else {
                match quoted_at(s, j + kind_key().len()) {
                    None => None,
                    Some((t, m)) => match tag_kind(t) {
                        None => None,
                        Some(k) => if line_ends_at(s, m) {
                            Some(((p, k), m))
                        } else {
                            None
                        },
                    },
                }
            },
        }
    } else if has_at(s, i, kind_head()) {
        match quoted_at(s, i + kind_head().len()) {
            None => None,
            Some((t, j)) => match tag_kind(t) {
                None => None,
                Some(k) => if !has_at(s, j, path_key()) {
                    None
                } else {
                    match quoted_at(s, j + path_key().len()) {
                        None => None,
                        Some((p, m)) => if line_ends_at(s, m) {
                            Some(((p, k), m))
                        } else {
                            None
                        },
                    }
                },
            },
        }
    } else {
        None
    }
}

pub open spec fn is_blank(c: char) -> bool {
    c == ' ' || c == '\t' || c == '\n' || c == '\r'
}

/// The first position from `i` on that holds no blank.
pub open spec fn skip_blank(s: Seq<char>, i: int) -> int
    decreases s.len() - i,
{
    if 0 <= i < s.len() && is_blank(s[i]) {
        skip_blank(s, i + 1)
    } else {
        i
    }
}

/// The entries of the document from position `i` on; none when it is not
/// well formed.
pub open spec fn entries_at(s: Seq<char>, i: int) -> Option<Seq<(Seq<char>, EElementType)>>
    decreases s.len() - i,
{
    let j = skip_blank(s, i);
    if j < 0 || j >= s.len() {
        Some(Seq::empty())
    } else {
        match entry_at(s, j) {
            None => None,
            Some((e, m)) => if i < m <= s.len() {
                match entries_at(s, m) {
                    Some(rest) => Some(seq![e] + rest),
                    None => None,
                }
            } else {
                None
            },
        }
    }
}

/// The entries that the document `s` records.
pub open spec fn parse_manifest_text(s: Seq<char>) -> Option<Seq<(Seq<char>, EElementType)>> {
    entries_at(s, 0)
}


proof fn lemma_keys()
    ensures
        table_head().len() > 0,
        table_head()[0] == '[',
        kind_key().len() > 0,
{
    reveal(table_head);
    reveal(kind_key);
}

proof fn lemma_escape_plain(t: Seq<char>)
    requires
        forall|k: int| 0 <= k < t.len() ==> !is_escaped(#[trigger] t[k]),
    ensures
        escape(t) == t,
    decreases t.len(),
{
    if t.len() > 0 {
        lemma_escape_plain(t.drop_first());
        assert(seq![t[0]] + t.drop_first() =~= t);
    }
}

proof fn lemma_basic_escape(pre: Seq<char>, p: Seq<char>, post: Seq<char>)
    ensures
        basic_at(pre + escape(p) + seq!['"'] + post, pre.len() as int) == Some(
            (p, (pre.len() + escape(p).len() + 1) as int),
        ),
    decreases p.len(),
{
    let s = pre + escape(p) + seq!['"'] + post;
    let i = pre.len() as int;
    if p.len() == 0 {
        assert(s[i] == '"');
    } else {
        let c = p[0];
        let tail = p.drop_first();
        let pre2 = pre + escape_char(c);
        lemma_basic_escape(pre2, tail, post);
        assert(s =~= pre2 + escape(tail) + seq!['"'] + post);
        assert(seq![c] + tail =~= p);
        if is_escaped(c) {
            assert(s[i] == '\\');
            assert(s[i + 1] == escape_letter(c));
        } else {
            assert(s[i] == c);
        }
    }
}

proof fn lemma_kind_tag(k: EElementType)
    ensures
        escape(kind_tag(k)) == kind_tag(k),
        tag_kind(kind_tag(k)) == Some(k),
{
    let t = kind_tag(k);
    assert forall|m: int| 0 <= m < t.len() implies !is_escaped(#[trigger] t[m]) by {
        assert(t[m] != '\\' && t[m] != '"' && t[m] != '\n' && t[m] != '\r' && t[m] != '\t');
    }
    lemma_escape_plain(t);
    assert(kind_tag(EElementType::File) != kind_tag(EElementType::Folder)) by {
        assert(kind_tag(EElementType::File).len() != kind_tag(EElementType::Folder).len());
    }
    assert(kind_tag(EElementType::File) != kind_tag(EElementType::Anything)) by {
        assert(kind_tag(EElementType::File).len() != kind_tag(EElementType::Anything).len());
    }
    assert(kind_tag(EElementType::Folder) != kind_tag(EElementType::Anything)) by {
        assert(kind_tag(EElementType::Folder).len() != kind_tag(EElementType::Anything).len());
    }
}

#[verifier::rlimit(100)]
proof fn lemma_entry_text(pre: Seq<char>, e: (Seq<char>, EElementType), post: Seq<char>)
    ensures
        entry_at(pre + entry_text(e) + post, pre.len() as int) == Some(
            (e, (pre.len() + entry_text(e).len() - 2) as int),
        ),
{
    reveal(entry_at);
    reveal(entry_text);
    let s = pre + entry_text(e) + post;
    let i = pre.len() as int;
    let h = table_head();
    let q = seq!['"'];
    let kk = kind_key();
    let tag = kind_tag(e.1);
    lemma_kind_tag(e.1);
    let a = pre + h;
    assert(s.subrange(i, i + h.len()) =~= h);
    assert(s[a.len() as int] == '"');
    let pre1 = a + q;
    let post1 = kk + q + tag + seq!['"', '\n', '\n'] + post;
    assert(s =~= pre1 + escape(e.0) + seq!['"'] + post1);
    lemma_basic_escape(pre1, e.0, post1);
    let j = (pre1.len() + escape(e.0).len() + 1) as int;
    assert(s.subrange(j, j + kk.len()) =~= kk);
    let pre2 = pre1 + escape(e.0) + q + kk + q;
    assert(s[j + kk.len()] == '"');
    let post2 = seq!['\n', '\n'] + post;
    assert(s =~= pre2 + escape(tag) + seq!['"'] + post2);
    lemma_basic_escape(pre2, tag, post2);
    let m = (pre2.len() + tag.len() + 1) as int;
    assert(m == pre.len() + entry_text(e).len() - 2);
    assert(s[m] == '\n');
}

proof fn lemma_entry_text_shape(e: (Seq<char>, EElementType))
    ensures
        entry_text(e).len() >= 2,
        entry_text(e)[0] == '[',
        entry_text(e)[entry_text(e).len() - 2] == '\n',
        entry_text(e)[entry_text(e).len() - 1] == '\n',
{
    reveal(entry_text);
    lemma_keys();
}

proof fn lemma_skip_blank(s: Seq<char>, i: int, k: int)
    requires
        0 <= i <= k <= s.len(),
        forall|m: int| i <= m < k ==> is_blank(#[trigger] s[m]),
        k == s.len() || !is_blank(s[k]),
    ensures
        skip_blank(s, i) == k,
    decreases k - i,
{
    if i < k {
        lemma_skip_blank(s, i + 1, k);
    }
}

proof fn lemma_entries_text(pre: Seq<char>, es: Seq<(Seq<char>, EElementType)>, i: int)
    requires
        0 <= i <= pre.len(),
        forall|m: int| i <= m < pre.len() ==> is_blank(#[trigger] pre[m]),
    ensures
        entries_at(pre + manifest_text(es), i) == Some(es),
    decreases es.len(),
{
    let s = pre + manifest_text(es);
    if es.len() == 0 {
        assert(s =~= pre);
        lemma_skip_blank(s, i, s.len() as int);
    } else {
        let e = es[0];
        let rest = es.drop_first();
        let post = manifest_text(rest);
        assert(s =~= pre + entry_text(e) + post);
        lemma_entry_text_shape(e);
        assert(s[pre.len() as int] == entry_text(e)[0]);
        lemma_skip_blank(s, i, pre.len() as int);
        lemma_entry_text(pre, e, post);
        let m = (pre.len() + entry_text(e).len() - 2) as int;
        let pre2 = pre + entry_text(e);
        assert(s =~= pre2 + manifest_text(rest));
        assert(pre2[m] == '\n' && pre2[m + 1] == '\n');
        lemma_entries_text(pre2, rest, m);
        assert(seq![e] + rest =~= es);
    }
}

/// Reading back the document written for a sequence of entries gives the
/// same entries, in the same order.
pub proof fn lemma_manifest_text_round_trip(es: Seq<(Seq<char>, EElementType)>)
    ensures
        parse_manifest_text(manifest_text(es)) == Some(es),
{
    lemma_entries_text(Seq::empty(), es, 0);
    assert(Seq::<char>::empty() + manifest_text(es) =~= manifest_text(es));
}

/// The views of a list of entries.
pub open spec fn entry_views(v: Seq<SConfigElement>) -> Seq<(Seq<char>, EElementType)> {
    v.map_values(|e: SConfigElement| e@)
}

proof fn lemma_escape_push(t: Seq<char>, c: char)
    ensures
        escape(t.push(c)) == escape(t) + escape_char(c),
    decreases t.len(),
{
    if t.len() == 0 {
        assert(t.push(c).drop_first() =~= Seq::<char>::empty());
        assert(escape(Seq::<char>::empty()) =~= Seq::<char>::empty());
        assert(escape_char(c) + Seq::<char>::empty() =~= escape_char(c));
    } else {
        lemma_escape_push(t.drop_first(), c);
        assert(t.push(c).drop_first() =~= t.drop_first().push(c));
        assert(t.push(c)[0] == t[0]);
    }
}

proof fn lemma_manifest_push(es: Seq<(Seq<char>, EElementType)>, e: (Seq<char>, EElementType))
    ensures
        manifest_text(es.push(e)) == manifest_text(es) + entry_text(e),
    decreases es.len(),
{
    if es.len() == 0 {
        let none = Seq::<(Seq<char>, EElementType)>::empty();
        assert(es.push(e).drop_first() =~= none);
        assert(manifest_text(none) == Seq::<char>::empty());
        assert(manifest_text(es) == Seq::<char>::empty());
        assert(es.push(e)[0] == e);
        assert(entry_text(e) + Seq::<char>::empty() =~= entry_text(e));
        assert(Seq::<char>::empty() + entry_text(e) =~= entry_text(e));
    } else {
        lemma_manifest_push(es.drop_first(), e);
        assert(es.push(e).drop_first() =~= es.drop_first().push(e));
        assert(es.push(e)[0] == es[0]);
        let a = entry_text(es[0]);
        let b = manifest_text(es.drop_first());
        assert(manifest_text(es.push(e)) == a + (b + entry_text(e)));
        assert(a + (b + entry_text(e)) =~= (a + b) + entry_text(e));
    }
}

fn push_chars(out: &mut Vec<char>, t: &str)
    ensures
        final(out)@ == old(out)@ + t@,
{
    let mut v = chars_of(t);
    out.append(&mut v);
}

fn push_escaped(out: &mut Vec<char>, p: &str)
    ensures
        final(out)@ == old(out)@ + escape(p@),
{
    let v = chars_of(p);
    let ghost start = out@;
    let mut k: usize = 0;
    assert(v@.take(0) =~= Seq::<char>::empty());
    while k < v.len()
        invariant
            k <= v.len(),
            v@ == p@,
            out@ == start + escape(v@.take(k as int)),
        decreases v.len() - k,
    {
        let c = v[k];
        proof {
            lemma_escape_push(v@.take(k as int), c);
            assert(v@.take(k as int).push(c) =~= v@.take(k + 1));
        }
        if c == '\\' || c == '"' {
            out.push('\\');
            out.push(c);
        } else if c == '\n' {
            out.push('\\');
            out.push('n');
        } else if c == '\r' {
            out.push('\\');
            out.push('r');
        } else if c == '\t' {
            out.push('\\');
            out.push('t');
        } else {
            out.push(c);
        }
        k = k + 1;
        assert(out@ =~= start + escape(v@.take(k as int)));
    }
    assert(v@.take(v.len() as int) =~= v@);
}

fn kind_tag_str(k: EElementType) -> (r: &'static str)
    ensures
        r@ == kind_tag(k),
{
    match k {
        EElementType::File => {
            proof { reveal_strlit("File"); }
            "File"
        },
        EElementType::Folder => {
            proof { reveal_strlit("Folder"); }
            "Folder"
        },
        EElementType::Anything => {
            proof { reveal_strlit("Anything"); }
            "Anything"
        },
    }
}

fn push_entry(out: &mut Vec<char>, e: &SConfigElement)
    ensures
        final(out)@ == old(out)@ + entry_text(e@),
{
    let ghost start = out@;
    push_chars(out, "[[elements]]\npath = \"");
    push_escaped(out, e.path.as_str());
    push_chars(out, "\"\ncontent_type = \"");
    push_chars(out, kind_tag_str(e.content_type));
    push_chars(out, "\"\n\n");
    proof {
        reveal_strlit("[[elements]]\npath = \"");
        reveal_strlit("\"\ncontent_type = \"");
        reveal_strlit("\"\n\n");
        reveal(entry_text);
        reveal(table_head);
        reveal(kind_key);
        assert(out@ =~= start + entry_text(e@));
    }
}

/// The document that records `elements`, in order.
pub fn manifest_text_of(elements: &Vec<SConfigElement>) -> (r: String)
    ensures
        r@ == manifest_text(entry_views(elements@)),
{
    let mut out: Vec<char> = Vec::new();
    let mut k: usize = 0;
    while k < elements.len()
        invariant
            k <= elements.len(),
            out@ == manifest_text(entry_views(elements@.take(k as int))),
        decreases elements.len() - k,
    {
        proof {
            lemma_manifest_push(entry_views(elements@.take(k as int)), elements@[k as int]@);
            assert(entry_views(elements@.take(k as int)).push(elements@[k as int]@)
                =~= entry_views(elements@.take(k + 1)));
        }
        push_entry(&mut out, &elements[k]);
        k = k + 1;
    }
    proof {
        assert(elements@.take(elements.len() as int) =~= elements@);
    }
    string_of(&out)
}

pub open spec fn prefixed(a: Seq<char>, o: Option<(Seq<char>, int)>) -> Option<(Seq<char>, int)> {
    match o {
        Some((t, j)) => Some((a + t, j)),
        None => None,
    }
}

pub open spec fn prefixed_entries(
    a: Seq<(Seq<char>, EElementType)>,
    o: Option<Seq<(Seq<char>, EElementType)>>,
) -> Option<Seq<(Seq<char>, EElementType)>> {
    match o {
        Some(t) => Some(a + t),
        None => None,
    }
}

proof fn lemma_prefixed(a: Seq<char>, c: char, o: Option<(Seq<char>, int)>)
    ensures
        prefixed(a, prefixed(seq![c], o)) == prefixed(a.push(c), o),
{
    if let Some((t, j)) = o {
        assert(a + (seq![c] + t) =~= a.push(c) + t);
    }
}

fn skip_blank_exec(s: &Vec<char>, i: usize) -> (r: usize)
    requires
        i <= s.len(),
    ensures
        r as int == skip_blank(s@, i as int),
        i <= r <= s.len(),
{
    let mut k: usize = i;
    while k < s.len() && (s[k] == ' ' || s[k] == '\t' || s[k] == '\n' || s[k] == '\r')
        invariant
            i <= k <= s.len(),
            skip_blank(s@, i as int) == skip_blank(s@, k as int),
        decreases s.len() - k,
    {
        k = k + 1;
    }
    k
}

fn unescape_exec(c: char) -> (r: Option<char>)
    ensures
        r == unescape_letter(c),
{
    if c == '\\' || c == '"' {
        Some(c)
    } else if c == 'n' {
        Some('\n')
    } else if c == 'r' {
        Some('\r')
    } else if c == 't' {
        Some('\t')
    } else if c == 'b' {
        Some('\u{8}')
    } else if c == 'f' {
        Some('\u{c}')
    } else {
        None
    }
}

fn basic_exec(s: &Vec<char>, i: usize) -> (r: Option<(Vec<char>, usize)>)
    requires
        i <= s.len(),
    ensures
        match r {
            Some((t, j)) => basic_at(s@, i as int) == Some((t@, j as int)) && j <= s.len(),
            None => basic_at(s@, i as int) is None,
        },
{
    let mut acc: Vec<char> = Vec::new();
    let mut k: usize = i;
    assert(prefixed(acc@, basic_at(s@, k as int)) == basic_at(s@, i as int)) by {
        if let Some((t, j)) = basic_at(s@, i as int) {
            assert(acc@ + t =~= t);
        }
    }
    while k < s.len()
        invariant
            i <= k <= s.len(),
            basic_at(s@, i as int) == prefixed(acc@, basic_at(s@, k as int)),
        decreases s.len() - k,
    {
        let c = s[k];
        if c == '"' {
            assert(acc@ + Seq::<char>::empty() =~= acc@);
            return Some((acc, k + 1));
        } else if c == '\\' {
            if k + 1 >= s.len() {
                return None;
            }
            match unescape_exec(s[k + 1]) {
                None => {
                    return None;
                },
                Some(d) => {
                    proof {
                        lemma_prefixed(acc@, d, basic_at(s@, k + 2));
                    }
                    acc.push(d);
                    k = k + 2;
                },
            }
        } else {
            proof {
                lemma_prefixed(acc@, c, basic_at(s@, k + 1));
            }
            acc.push(c);
            k = k + 1;
        }
    }
    None
}

fn literal_exec(s: &Vec<char>, i: usize) -> (r: Option<(Vec<char>, usize)>)
    requires
        i <= s.len(),
    ensures
        match r {
            Some((t, j)) => literal_at(s@, i as int) == Some((t@, j as int)) && j <= s.len(),
            None => literal_at(s@, i as int) is None,
        },
{
    let mut acc: Vec<char> = Vec::new();
    let mut k: usize = i;
    assert(prefixed(acc@, literal_at(s@, k as int)) == literal_at(s@, i as int)) by {
        if let Some((t, j)) = literal_at(s@, i as int) {
            assert(acc@ + t =~= t);
        }
    }
    while k < s.len()
        invariant
            i <= k <= s.len(),
            literal_at(s@, i as int) == prefixed(acc@, literal_at(s@, k as int)),
        decreases s.len() - k,
    {
        let c = s[k];
        if c == '\'' {
            assert(acc@ + Seq::<char>::empty() =~= acc@);
            return Some((acc, k + 1));
        }
        proof {
            lemma_prefixed(acc@, c, literal_at(s@, k + 1));
        }
        acc.push(c);
        k = k + 1;
    }
    None
}

fn quoted_exec(s: &Vec<char>, i: usize) -> (r: Option<(Vec<char>, usize)>)
    requires
        i <= s.len(),
    ensures
        match r {
            Some((t, j)) => quoted_at(s@, i as int) == Some((t@, j as int)) && j <= s.len(),
            None => quoted_at(s@, i as int) is None,
        },
{
    if i < s.len() && s[i] == '"' {
        basic_exec(s, i + 1)
    } else if i < s.len() && s[i] == '\'' {
        literal_exec(s, i + 1)
    } else {
        None
    }
}

fn has_at_exec(s: &Vec<char>, i: usize, t: &Vec<char>) -> (r: bool)
    requires
        i <= s.len(),
    ensures
        r == has_at(s@, i as int, t@),
{
    if t.len() > s.len() - i {
        return false;
    }
    let mut k: usize = 0;
    while k < t.len()
        invariant
            k <= t.len(),
            i + t.len() <= s.len(),
            forall|m: int| 0 <= m < k ==> s@[i + m] == t@[m],
        decreases t.len() - k,
    {
        if s[i + k] != t[k] {
            assert(s@.subrange(i as int, i + t.len())[k as int] != t@[k as int]);
            return false;
        }
        k = k + 1;
    }
    assert(s@.subrange(i as int, i + t.len()) =~= t@);
    true
}

fn same_chars(a: &Vec<char>, b: &Vec<char>) -> (r: bool)
    ensures
        r == (a@ == b@),
{
    if a.len() != b.len() {
        return false;
    }
    let r = has_at_exec(a, 0, b);
    assert(a@.subrange(0, b.len() as int) =~= a@);
    r
}

fn tag_kind_exec(t: &Vec<char>) -> (r: Option<EElementType>)
    ensures
        r == tag_kind(t@),
{
    if same_chars(t, &chars_of(kind_tag_str(EElementType::File))) {
        Some(EElementType::File)
    } else if same_chars(t, &chars_of(kind_tag_str(EElementType::Folder))) {
        Some(EElementType::Folder)
    } else if same_chars(t, &chars_of(kind_tag_str(EElementType::Anything))) {
        Some(EElementType::Anything)
    } else {
        None
    }
}

fn entry_exec(s: &Vec<char>, i: usize) -> (r: Option<(SConfigElement, usize)>)
    requires
        i <= s.len(),
    ensures
        match r {
            Some((e, m)) => entry_at(s@, i as int) == Some((e@, m as int)) && m <= s.len(),
            None => entry_at(s@, i as int) is None,
        },
{
    reveal(entry_at);
    let head = chars_of("[[elements]]\npath = ");
    let key = chars_of("\ncontent_type = ");
    let head2 = chars_of("[[elements]]\ncontent_type = ");
    let key2 = chars_of("\npath = ");
    proof {
        reveal_strlit("[[elements]]\npath = ");
        reveal_strlit("\ncontent_type = ");
        reveal_strlit("[[elements]]\ncontent_type = ");
        reveal_strlit("\npath = ");
        reveal(table_head);
        reveal(kind_key);
        reveal(kind_head);
        reveal(path_key);
        assert(head@ =~= table_head());
        assert(key@ =~= kind_key());
        assert(head2@ =~= kind_head());
        assert(key2@ =~= path_key());
    }
    let path_first = has_at_exec(s, i, &head);
    if !path_first && !has_at_exec(s, i, &head2) {
        return None;
    }
    let first_len = if path_first { head.len() } else { head2.len() };
    let (a, j) = match quoted_exec(s, i + first_len) {
        None => {
            return None;
        },
        Some(x) => x,
    };
    let k_first = if path_first { None } else { tag_kind_exec(&a) };
    if !path_first && k_first.is_none() {
        return None;
    }
    let second = if path_first { &key } else { &key2 };
    if !has_at_exec(s, j, second) {
        return None;
    }
    let (b, m) = match quoted_exec(s, j + second.len()) {
        None => {
            return None;
        },
        Some(x) => x,
    };
    let k = if path_first {
        match tag_kind_exec(&b) {
            None => {
                return None;
            },
            Some(k) => k,
        }
    } else {
        match k_first {
            Some(k) => k,
            None => {
                return None;
            },
        }
    };
    if !(m == s.len() || s[m] == '\n') {
        return None;
    }
    let p = if path_first { a } else { b };
    Some((SConfigElement::new(string_of(&p), k), m))
}

/// The entries that the document `text` records, or none when it is not
/// well formed.
pub fn parse_manifest(text: &str) -> (r: Option<Vec<SConfigElement>>)
    ensures
        match r {
            Some(v) => parse_manifest_text(text@) == Some(entry_views(v@)),
            None => parse_manifest_text(text@) is None,
        },
{
    let s = chars_of(text);
    let mut out: Vec<SConfigElement> = Vec::new();
    let mut i: usize = 0;
    assert(prefixed_entries(entry_views(out@), entries_at(s@, 0)) == entries_at(s@, 0)) by {
        if let Some(t) = entries_at(s@, 0) {
            assert(entry_views(out@) + t =~= t);
        }
    }
    loop
        invariant
            i <= s.len(),
            s@ == text@,
            entries_at(s@, 0) == prefixed_entries(entry_views(out@), entries_at(s@, i as int)),
        decreases s.len() - i,
    {
        let j = skip_blank_exec(&s, i);
        if j >= s.len() {
            assert(entry_views(out@) + Seq::empty() =~= entry_views(out@));
            return Some(out);
        }
        match entry_exec(&s, j) {
            None => {
                return None;
            },
            Some((e, m)) => {
                if !(i < m && m <= s.len()) {
                    return None;
                }
                proof {
                    if let Some(t) = entries_at(s@, m as int) {
                        assert(entry_views(out@) + (seq![e@] + t) =~= entry_views(out@.push(e))
                            + t);
                    }
                }
                out.push(e);
                i = m;
            },
        }
    }
}

} // verus!
