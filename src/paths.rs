//! Paths as `/`-separated text: the last component, the directory above it,
//! and joining a directory with a name.
use vstd::prelude::*;
use vstd::string::*;

verus! {

/// Index of the last `/` among the first `j` characters of `p`, or -1.
pub open spec fn last_sep_before(p: Seq<char>, j: int) -> int
    decreases j,
{
    if j <= 0 {
        -1
    } else if p[j - 1] == '/' {
        j - 1
    } else {
        last_sep_before(p, j - 1)
    }
}

/// Index of the last `/` in `p`, or -1 when there is none.
pub open spec fn last_sep(p: Seq<char>) -> int {
    last_sep_before(p, p.len() as int)
}

/// The last component of `p`; none when it is empty, `.` or `..`.
pub open spec fn spec_file_name(p: Seq<char>) -> Option<Seq<char>> {
    let n = p.subrange(last_sep(p) + 1, p.len() as int);
    if n.len() == 0 || n == seq!['.'] || n == seq!['.', '.'] {
        None
    } else {
        Some(n)
    }
}

/// What stands before the last `/` of `p`: the root for `/x`, empty for `x`.
pub open spec fn spec_parent(p: Seq<char>) -> Seq<char> {
    let i = last_sep(p);
    if i < 0 {
        Seq::empty()
    } else if i == 0 {
        seq!['/']
    } else {
        p.subrange(0, i)
    }
}

/// `name` placed inside `dir`, with one `/` between them.
pub open spec fn spec_join(dir: Seq<char>, name: Seq<char>) -> Seq<char> {
    if dir.len() == 0 {
        name
    } else if dir.last() == '/' {
        dir + name
    } else {
        dir + seq!['/'] + name
    }
}

/// No `/` directly follows another one.
pub open spec fn no_empty_component(p: Seq<char>) -> bool {
    forall|i: int| 0 < i < p.len() && #[trigger] p[i] == '/' ==> p[i - 1] != '/'
}

pub proof fn lemma_last_sep_before(p: Seq<char>, j: int)
    requires
        0 <= j <= p.len(),
    ensures
        -1 <= last_sep_before(p, j) < j,
        last_sep_before(p, j) >= 0 ==> p[last_sep_before(p, j)] == '/',
        forall|k: int| last_sep_before(p, j) < k < j ==> p[k] != '/',
    decreases j,
{
    if j > 0 {
        lemma_last_sep_before(p, j - 1);
    }
}

/// The directory above a path, joined with its last component, gives the
/// path back.
pub proof fn lemma_join_parent_file_name(p: Seq<char>)
    requires
        spec_file_name(p) is Some,
        no_empty_component(p),
    ensures
        spec_join(spec_parent(p), spec_file_name(p)->0) == p,
{
    let i = last_sep(p);
    lemma_last_sep_before(p, p.len() as int);
    let n = p.subrange(i + 1, p.len() as int);
    if i < 0 {
        assert(n == p);
    } else if i == 0 {
        assert(seq!['/'] + n == p);
    } else {
        assert(p[i - 1] != '/');
        assert(p.subrange(0, i) + seq!['/'] + n == p);
    }
}

proof fn lemma_last_sep_at(s: Seq<char>, i: int)
    requires
        -1 <= i < s.len(),
        i >= 0 ==> s[i] == '/',
        forall|k: int| i < k < s.len() ==> s[k] != '/',
    ensures
        last_sep(s) == i,
{
    lemma_last_sep_before(s, s.len() as int);
    let l = last_sep(s);
    if l < i {
        assert(s[i] != '/');
    } else if l > i {
        assert(s[l] != '/');
    }
}

/// The last component of a path is a name of its own: it has no `/`.
pub proof fn lemma_file_name_is_name(p: Seq<char>)
    requires
        spec_file_name(p) is Some,
    ensures
        spec_file_name(spec_file_name(p)->0) == spec_file_name(p),
        forall|k: int| 0 <= k < spec_file_name(p)->0.len() ==> #[trigger] spec_file_name(p)->0[k] != '/',
{
    let n = spec_file_name(p)->0;
    lemma_last_sep_before(p, p.len() as int);
    let i = last_sep(p);
    assert forall|k: int| 0 <= k < n.len() implies #[trigger] n[k] != '/' by {
        assert(n[k] == p[i + 1 + k]);
    }
    lemma_last_sep_at(n, -1);
    assert(n.subrange(0, n.len() as int) =~= n);
}

/// A name joined to a directory is the last component of the result.
pub proof fn lemma_file_name_join(d: Seq<char>, n: Seq<char>)
    requires
        spec_file_name(n) == Some(n),
    ensures
        spec_file_name(spec_join(d, n)) == Some(n),
{
    lemma_last_sep_before(n, n.len() as int);
    assert(n.subrange(last_sep(n) + 1, n.len() as int).len() == n.len());
    assert forall|k: int| 0 <= k < n.len() implies n[k] != '/' by {
        assert(last_sep(n) == -1);
    }
    if d.len() > 0 {
        let pre = if d.last() == '/' { d } else { d + seq!['/'] };
        let s = spec_join(d, n);
        assert(s =~= pre + n);
        let i = pre.len() - 1;
        assert(s[i] == '/');
        assert forall|k: int| i < k < s.len() implies s[k] != '/' by {
            assert(s[k] == n[k - pre.len()]);
        }
        lemma_last_sep_at(s, i);
        assert(s.subrange(i + 1, s.len() as int) =~= n);
    }
}

/// Joining one directory with two names gives one path only for one name.
pub proof fn lemma_join_injective(d: Seq<char>, a: Seq<char>, b: Seq<char>)
    requires
        spec_join(d, a) == spec_join(d, b),
    ensures
        a == b,
{
    if d.len() > 0 {
        let pre = if d.last() == '/' { d } else { d + seq!['/'] };
        assert(spec_join(d, a) =~= pre + a);
        assert(spec_join(d, b) =~= pre + b);
        assert((pre + a).subrange(pre.len() as int, (pre + a).len() as int) =~= a);
        assert((pre + b).subrange(pre.len() as int, (pre + b).len() as int) =~= b);
    }
}

/// Relies on `str::chars`: the characters of `s`, in order.
#[verifier::external_body]
pub(crate) fn chars_of(s: &str) -> (r: Vec<char>)
    ensures
        r@ == s@,
{
    s.chars().collect()
}

/// Relies on `String`'s `FromIterator<&char>`: the text made of the characters
/// of `v`, in order.
#[verifier::external_body]
pub(crate) fn string_of(v: &Vec<char>) -> (r: String)
    ensures
        r@ == v@,
{
    v.iter().collect()
}

/// The characters of `v` from `lo` up to `hi`.
pub(crate) fn sub_chars(v: &Vec<char>, lo: usize, hi: usize) -> (r: Vec<char>)
    requires
        lo <= hi <= v.len(),
    ensures
        r@ == v@.subrange(lo as int, hi as int),
{
    let mut r: Vec<char> = Vec::new();
    let mut k: usize = lo;
    while k < hi
        invariant
            lo <= k <= hi <= v.len(),
            r@ == v@.subrange(lo as int, k as int),
        decreases hi - k,
    {
        r.push(v[k]);
        k = k + 1;
        assert(r@ =~= v@.subrange(lo as int, k as int));
    }
    r
}

fn last_sep_exec(v: &Vec<char>) -> (r: Option<usize>)
    ensures
        match r {
            Some(i) => i as int == last_sep(v@),
            None => last_sep(v@) == -1,
        },
{
    let mut j: usize = v.len();
    while j > 0
        invariant
            j <= v.len(),
            last_sep(v@) == last_sep_before(v@, j as int),
        decreases j,
    {
        if v[j - 1] == '/' {
            return Some(j - 1);
        }
        j = j - 1;
    }
    None
}

/// The last component of `path`, when it has one.
pub fn file_name(path: &str) -> (r: Option<String>)
    ensures
        match r {
            Some(n) => spec_file_name(path@) == Some(n@),
            None => spec_file_name(path@) is None,
        },
{
    let v = chars_of(path);
    proof {
        lemma_last_sep_before(v@, v@.len() as int);
    }
    let start: usize = match last_sep_exec(&v) {
        Some(i) => i + 1,
        None => 0,
    };
    let n = sub_chars(&v, start, v.len());
    let dot = n.len() == 1 && n[0] == '.';
    let dots = n.len() == 2 && n[0] == '.' && n[1] == '.';
    proof {
        if n.len() == 1 {
            assert(dot <==> n@ == seq!['.']) by {
                if n@ == seq!['.'] {
                    assert(n@[0] == seq!['.'][0]);
                }
                if dot {
                    assert(n@ =~= seq!['.']);
                }
            }
        }
        if n.len() == 2 {
            assert(dots <==> n@ == seq!['.', '.']) by {
                if n@ == seq!['.', '.'] {
                    assert(n@[0] == seq!['.', '.'][0]);
                    assert(n@[1] == seq!['.', '.'][1]);
                }
                if dots {
                    assert(n@ =~= seq!['.', '.']);
                }
            }
        }
    }
    if n.len() == 0 || dot || dots {
        None
    } else {
        Some(string_of(&n))
    }
}

/// The directory above the last component of `path`.
pub fn parent(path: &str) -> (r: String)
    ensures
        r@ == spec_parent(path@),
{
    let v = chars_of(path);
    proof {
        lemma_last_sep_before(v@, v@.len() as int);
    }
    match last_sep_exec(&v) {
        None => String::new(),
        Some(i) => {
            if i == 0 {
                let r = String::from_str("/");
                proof {
                    reveal_strlit("/");
                }
                r
            } else {
                string_of(&sub_chars(&v, 0, i))
            }
        },
    }
}

/// `name` placed inside the directory `dir`.
pub fn join(dir: &str, name: &str) -> (r: String)
    ensures
        r@ == spec_join(dir@, name@),
{
    let n = dir.unicode_len();
    if n == 0 {
        return name.to_owned();
    }
    let mut r = dir.to_owned();
    if dir.get_char(n - 1) != '/' {
        r.append("/");
        proof {
            reveal_strlit("/");
        }
    }
    r.append(name);
    r
}

} // verus!
