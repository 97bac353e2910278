//! Windows path text, taken apart as Windows does it: `\` and `/` both separate
//! components, empty and `.` components are dropped (but a leading `.`), a leading
//! `X:` or `\\server\share` is the prefix, and a separator after it is the root.
use vstd::prelude::*;
use crate::text::{chars_eq, extend_chars};

verus! {

pub open spec fn is_sep(c: char) -> bool {
    c == '\\' || c == '/'
}

/// The views of a sequence of character vectors.
pub open spec fn views(v: Seq<Vec<char>>) -> Seq<Seq<char>> {
    v.map_values(|x: Vec<char>| x@)
}

/// A component that counts: not empty and not `.`.
pub open spec fn kept(seg: Seq<char>) -> bool {
    seg.len() > 0 && seg != seq!['.']
}

pub open spec fn flush(acc: Seq<Seq<char>>, cur: Seq<char>) -> Seq<Seq<char>> {
    if kept(cur) {
        acc.push(cur)
    } else {
        acc
    }
}

pub open spec fn segments_from(p: Seq<char>, i: int, cur: Seq<char>, acc: Seq<Seq<char>>) -> Seq<Seq<char>>
    decreases p.len() - i,
{
    if i >= p.len() || i < 0 {
        flush(acc, cur)
    } else if is_sep(p[i]) {
        segments_from(p, i + 1, seq![], flush(acc, cur))
    } else {
        segments_from(p, i + 1, cur.push(p[i]), acc)
    }
}

/// The pieces of a text between separators, in order, with empty and `.` pieces
/// dropped.
pub open spec fn segments(p: Seq<char>) -> Seq<Seq<char>> {
    segments_from(p, 0, seq![], seq![])
}

fn flush_exec(acc: &mut Vec<Vec<char>>, cur: Vec<char>)
    ensures
        views(final(acc)@) == flush(views(old(acc)@), cur@),
{
    let keep = cur.len() > 0 && !(cur.len() == 1 && cur[0] == '.');
    proof {
        if cur@.len() == 1 && cur@[0] == '.' {
            assert(cur@ =~= seq!['.']);
        }
        if cur@ == seq!['.'] {
            assert(cur@[0] == '.');
        }
    }
    let ghost before = acc@;
    if keep {
        acc.push(cur);
        assert(views(acc@) =~= views(before).push(cur@));
    }
}

/// The pieces of a text between separators, with empty and `.` pieces dropped.
pub fn segments_exec(p: &[char]) -> (r: Vec<Vec<char>>)
    ensures
        views(r@) == segments(p@),
{
    let mut acc: Vec<Vec<char>> = Vec::new();
    let mut cur: Vec<char> = Vec::new();
    let mut i: usize = 0;
    assert(views(acc@) =~= Seq::<Seq<char>>::empty());
    assert(cur@ =~= Seq::<char>::empty());
    while i < p.len()
        invariant
            i <= p.len(),
            segments_from(p@, i as int, cur@, views(acc@)) == segments(p@),
        decreases p.len() - i,
    {
        if p[i] == '\\' || p[i] == '/' {
            let done = cur;
            flush_exec(&mut acc, done);
            cur = Vec::new();
            assert(cur@ =~= Seq::<char>::empty());
        } else {
            cur.push(p[i]);
        }
        i += 1;
    }
    flush_exec(&mut acc, cur);
    acc
}

/// `Path::file_name`: the last component after the prefix, unless there is none
/// (the path is only a prefix, a root or `.`) or it is `..`.
pub open spec fn file_name(p: Seq<char>) -> Option<Seq<char>> {
    let s = body_segments(p);
    if s.len() == 0 {
        None
    } else if s.last() == seq!['.', '.'] {
        None
    } else {
        Some(s.last())
    }
}

/// The file name, or the empty text where there is none.
pub open spec fn name_or_empty(p: Seq<char>) -> Seq<char> {
    match file_name(p) {
        Some(n) => n,
        None => seq![],
    }
}

pub fn is_dotdot(s: &[char]) -> (r: bool)
    ensures
        r == (s@ == seq!['.', '.']),
{
    let r = s.len() == 2 && s[0] == '.' && s[1] == '.';
    proof {
        if r {
            assert(s@ =~= seq!['.', '.']);
        }
    }
    r
}

/// `Path::file_name`.
pub fn file_name_exec(p: &[char]) -> (r: Option<Vec<char>>)
    ensures
        match r {
            Some(v) => file_name(p@) == Some(v@),
            None => file_name(p@) is None,
        },
{
    let mut segs = body_segments_exec(p);
    let n = segs.len();
    if n == 0 {
        return None;
    }
    assert(views(segs@).last() == segs@[n - 1]@);
    if is_dotdot(segs[n - 1].as_slice()) {
        return None;
    }
    segs.pop()
}

/// The file name, or empty text.
pub fn name_or_empty_exec(p: &[char]) -> (r: Vec<char>)
    ensures
        r@ == name_or_empty(p@),
{
    match file_name_exec(p) {
        Some(v) => v,
        None => Vec::new(),
    }
}

/// Index of the last `.` in a name, or -1.
pub open spec fn last_dot(n: Seq<char>) -> int
    decreases n.len(),
{
    if n.len() == 0 {
        -1
    } else if n.last() == '.' {
        n.len() - 1
    } else {
        last_dot(n.drop_last())
    }
}

/// `Path::file_stem` of a file name.
pub open spec fn stem_of(n: Seq<char>) -> Seq<char> {
    if last_dot(n) <= 0 {
        n
    } else {
        n.take(last_dot(n))
    }
}

/// `Path::extension` of a file name.
pub open spec fn ext_of(n: Seq<char>) -> Option<Seq<char>> {
    if last_dot(n) <= 0 {
        None
    } else {
        Some(n.skip(last_dot(n) + 1))
    }
}

/// `Path::file_stem`.
pub open spec fn file_stem(p: Seq<char>) -> Option<Seq<char>> {
    match file_name(p) {
        Some(n) => Some(stem_of(n)),
        None => None,
    }
}

/// `Path::extension`.
pub open spec fn extension(p: Seq<char>) -> Option<Seq<char>> {
    match file_name(p) {
        Some(n) => ext_of(n),
        None => None,
    }
}

proof fn lemma_last_dot(n: Seq<char>, k: int)
    requires
        -1 <= k < n.len(),
        k >= 0 ==> n[k] == '.',
        forall|j: int| k < j < n.len() ==> n[j] != '.',
    ensures
        last_dot(n) == k,
    decreases n.len(),
{
    if n.len() > 0 && n.last() != '.' {
        lemma_last_dot(n.drop_last(), k);
    }
}

pub fn last_dot_exec(n: &[char]) -> (r: Option<usize>)
    ensures
        match r {
            Some(k) => last_dot(n@) == k && k < n.len(),
            None => last_dot(n@) == -1,
        },
{
    let mut i: usize = n.len();
    while i > 0
        invariant
            i <= n.len(),
            forall|j: int| i <= j < n.len() ==> n@[j] != '.',
        decreases i,
    {
        if n[i - 1] == '.' {
            proof {
                lemma_last_dot(n@, i - 1);
            }
            return Some(i - 1);
        }
        i -= 1;
    }
    proof {
        lemma_last_dot(n@, -1);
    }
    None
}

pub fn copy_range(n: &[char], lo: usize, hi: usize) -> (r: Vec<char>)
    requires
        lo <= hi <= n.len(),
    ensures
        r@ == n@.subrange(lo as int, hi as int),
{
    let mut r: Vec<char> = Vec::new();
    let mut i: usize = lo;
    while i < hi
        invariant
            lo <= i <= hi <= n.len(),
            r@ == n@.subrange(lo as int, i as int),
        decreases hi - i,
    {
        r.push(n[i]);
        i += 1;
        assert(n@.subrange(lo as int, i as int) == n@.subrange(lo as int, i - 1).push(n@[i - 1]));
    }
    r
}

pub fn stem_of_exec(n: &[char]) -> (r: Vec<char>)
    ensures
        r@ == stem_of(n@),
{
    match last_dot_exec(n) {
        Some(k) if k > 0 => copy_range(n, 0, k),
        _ => copy_range(n, 0, n.len()),
    }
}

pub fn ext_of_exec(n: &[char]) -> (r: Option<Vec<char>>)
    ensures
        match r {
            Some(v) => ext_of(n@) == Some(v@),
            None => ext_of(n@) is None,
        },
{
    match last_dot_exec(n) {
        Some(k) if k > 0 => Some(copy_range(n, k + 1, n.len())),
        _ => None,
    }
}

/// A bare drive such as `C:`, with no root after it.
pub open spec fn is_drive_only(a: Seq<char>) -> bool {
    a.len() == 2 && a[1] == ':' && (('a' <= a[0] && a[0] <= 'z') || ('A' <= a[0] && a[0] <= 'Z'))
}

/// `a.join(b)` for a relative `b`, with `\` as the separator; after a bare drive no
/// separator is added (`C:` joined with `b` is `C:b`, relative to that drive).
pub open spec fn join(a: Seq<char>, b: Seq<char>) -> Seq<char> {
    if a.len() == 0 {
        b
    } else if is_sep(a.last()) || is_drive_only(a) {
        a + b
    } else {
        a + seq!['\\'] + b
    }
}

pub fn join_exec(a: &[char], b: &[char]) -> (r: Vec<char>)
    ensures
        r@ == join(a@, b@),
{
    let mut r = copy_range(a, 0, a.len());
    let drive_only = a.len() == 2 && a[1] == ':' && (('a' <= a[0] && a[0] <= 'z') || ('A' <= a[0] && a[0] <= 'Z'));
    if a.len() > 0 && !(a[a.len() - 1] == '\\' || a[a.len() - 1] == '/') && !drive_only {
        r.push('\\');
    }
    extend_chars(&mut r, b);
    r
}

/// ASCII uppercase of one character; other characters are kept.
pub open spec fn upper_char(c: char) -> char {
    if 'a' <= c && c <= 'z' {
        ((c as u32) - 32) as char
    } else {
        c
    }
}

fn upper_char_exec(c: char) -> (r: char)
    ensures
        r == upper_char(c),
{
    if 'a' <= c && c <= 'z' {
        let code: u32 = c as u32;
        let b: u8 = (code - 32) as u8;
        assert(b as u32 == code - 32);
        b as char
    } else {
        c
    }
}

/// The index of the first separator at or after `i`, or the length where none follows.
pub open spec fn next_sep(p: Seq<char>, i: int) -> int
    decreases p.len() - i,
{
    if 0 <= i < p.len() && !is_sep(p[i]) {
        next_sep(p, i + 1)
    } else {
        i
    }
}

proof fn lemma_next_sep_bounds(p: Seq<char>, i: int)
    requires
        0 <= i <= p.len(),
    ensures
        i <= next_sep(p, i) <= p.len(),
        forall|j: int| i <= j < next_sep(p, i) ==> !is_sep(#[trigger] p[j]),
        next_sep(p, i) < p.len() ==> is_sep(p[next_sep(p, i)]),
    decreases p.len() - i,
{
    if i < p.len() && !is_sep(p[i]) {
        lemma_next_sep_bounds(p, i + 1);
    }
}

fn next_sep_exec(p: &[char], i: usize) -> (r: usize)
    requires
        i <= p.len(),
    ensures
        r == next_sep(p@, i as int),
        i <= r <= p.len(),
{
    let mut j: usize = i;
    while j < p.len() && !(p[j] == '\\' || p[j] == '/')
        invariant
            i <= j <= p.len(),
            next_sep(p@, j as int) == next_sep(p@, i as int),
        decreases p.len() - j,
    {
        j += 1;
    }
    j
}

/// The path begins with a UNC prefix `\\server\share`: two separators, a server
/// name, one separator and a share name, neither name empty.
pub open spec fn is_unc(p: Seq<char>) -> bool {
    let s = next_sep(p, 2);
    &&& p.len() > 2 && is_sep(p[0]) && is_sep(p[1])
    &&& 2 < s < p.len()
    &&& next_sep(p, s + 1) > s + 1
}

/// The path begins with a drive such as `C:`.
pub open spec fn has_drive(p: Seq<char>) -> bool {
    p.len() >= 2 && p[1] == ':' && (('a' <= p[0] && p[0] <= 'z') || ('A' <= p[0] && p[0] <= 'Z'))
}

/// How many characters the prefix (a UNC server and share, or a drive) takes.
pub open spec fn prefix_len(p: Seq<char>) -> int {
    if is_unc(p) {
        next_sep(p, next_sep(p, 2) + 1)
    } else if has_drive(p) {
        2
    } else {
        0
    }
}

/// The prefix component, where there is one: `\\server\share` with `\` as the
/// separator, or the drive letter in upper case and `:` (drives compare without case).
pub open spec fn prefix_component(p: Seq<char>) -> Seq<Seq<char>> {
    if is_unc(p) {
        let s = next_sep(p, 2);
        seq![seq!['\\', '\\'] + p.subrange(2, s) + seq!['\\'] + p.subrange(s + 1, prefix_len(p))]
    } else if has_drive(p) {
        seq![seq![upper_char(p[0]), ':']]
    } else {
        seq![]
    }
}

/// The path has a root: a separator right after its prefix, or a UNC prefix, whose
/// root is implied.
pub open spec fn has_root(p: Seq<char>) -> bool {
    is_unc(p) || (prefix_len(p) < p.len() && is_sep(p[prefix_len(p)]))
}

/// The path has no root and its text after the prefix begins with a `.` component.
pub open spec fn has_cur_dir(p: Seq<char>) -> bool {
    let k = prefix_len(p);
    &&& !has_root(p)
    &&& k < p.len() && p[k] == '.'
    &&& (k + 1 == p.len() || is_sep(p[k + 1]))
}

/// `Path::components`: the prefix, the root (written `\`), a leading `.`, then the
/// components after the prefix with empty and `.` ones dropped.
pub open spec fn components(p: Seq<char>) -> Seq<Seq<char>> {
    prefix_component(p) + (if has_root(p) {
        seq![seq!['\\']]
    } else {
        seq![]
    }) + (if has_cur_dir(p) {
        seq![seq!['.']]
    } else {
        seq![]
    }) + body_segments(p)
}

fn push_views(out: &mut Vec<Vec<char>>, c: Vec<char>)
    ensures
        views(final(out)@) == views(old(out)@).push(c@),
{
    out.push(c);
    assert(views(out@) =~= views(old(out)@).push(c@));
}

/// How many characters the prefix of a path takes.
pub fn prefix_len_exec(p: &[char]) -> (r: usize)
    ensures
        r == prefix_len(p@),
        r <= p.len(),
{
    if p.len() > 2 && (p[0] == '\\' || p[0] == '/') && (p[1] == '\\' || p[1] == '/') {
        let s = next_sep_exec(p, 2);
        if 2 < s && s < p.len() {
            let e = next_sep_exec(p, s + 1);
            if e > s + 1 {
                return e;
            }
        }
        0
    } else if p.len() >= 2 && p[1] == ':' && (('a' <= p[0] && p[0] <= 'z') || ('A' <= p[0] && p[0] <= 'Z')) {
        2
    } else {
        0
    }
}

/// The names and `..` steps of a path: its components after the prefix, with empty
/// and `.` ones dropped.
pub open spec fn body_segments(p: Seq<char>) -> Seq<Seq<char>> {
    segments(p.skip(prefix_len(p)))
}

pub fn body_segments_exec(p: &[char]) -> (r: Vec<Vec<char>>)
    ensures
        views(r@) == body_segments(p@),
{
    let k = prefix_len_exec(p);
    let rest = copy_range(p, k, p.len());
    assert(rest@ =~= p@.skip(k as int));
    segments_exec(rest.as_slice())
}

/// The components of a path.
pub fn components_exec(p: &[char]) -> (r: Vec<Vec<char>>)
    ensures
        views(r@) == components(p@),
{
    let mut out: Vec<Vec<char>> = Vec::new();
    let mut k: usize = 0;
    let mut unc = false;
    assert(views(out@) =~= Seq::<Seq<char>>::empty());
    if p.len() > 2 && (p[0] == '\\' || p[0] == '/') && (p[1] == '\\' || p[1] == '/') {
        let s = next_sep_exec(p, 2);
        if 2 < s && s < p.len() {
            let e = next_sep_exec(p, s + 1);
            if e > s + 1 {
                unc = true;
                k = e;
                let mut pre: Vec<char> = Vec::new();
                pre.push('\\');
                pre.push('\\');
                extend_chars(&mut pre, copy_range(p, 2, s).as_slice());
                pre.push('\\');
                extend_chars(&mut pre, copy_range(p, s + 1, e).as_slice());
                assert(pre@ =~= seq!['\\', '\\'] + p@.subrange(2, s as int) + seq!['\\'] + p@.subrange(s + 1, e as int));
                push_views(&mut out, pre);
            }
        }
    } else if p.len() >= 2 && p[1] == ':' && (('a' <= p[0] && p[0] <= 'z') || ('A' <= p[0] && p[0] <= 'Z')) {
        k = 2;
        let mut pre: Vec<char> = Vec::new();
        pre.push(upper_char_exec(p[0]));
        pre.push(':');
        assert(pre@ =~= seq![upper_char(p@[0]), ':']);
        push_views(&mut out, pre);
    }
    assert(unc == is_unc(p@));
    assert(k == prefix_len(p@));
    assert(views(out@) =~= prefix_component(p@));
    let root = unc || (k < p.len() && (p[k] == '\\' || p[k] == '/'));
    if root {
        let mut sep: Vec<char> = Vec::new();
        sep.push('\\');
        assert(sep@ =~= seq!['\\']);
        push_views(&mut out, sep);
    }
    let cur = !root && k < p.len() && p[k] == '.' && (k + 1 == p.len() || p[k + 1] == '\\' || p[k + 1] == '/');
    if cur {
        let mut dot: Vec<char> = Vec::new();
        dot.push('.');
        assert(dot@ =~= seq!['.']);
        push_views(&mut out, dot);
    }
    let ghost head = views(out@);
    assert(head =~= prefix_component(p@) + (if has_root(p@) {
        seq![seq!['\\']]
    } else {
        seq![]
    }) + (if has_cur_dir(p@) {
        seq![seq!['.']]
    } else {
        seq![]
    }));
    let rest = copy_range(p, k, p.len());
    assert(rest@ =~= p@.skip(k as int));
    let segs = segments_exec(rest.as_slice());
    let mut i: usize = 0;
    while i < segs.len()
        invariant
            i <= segs.len(),
            views(out@) == head + views(segs@).take(i as int),
        decreases segs.len() - i,
    {
        let c = segs[i].clone();
        push_views(&mut out, c);
        i += 1;
        assert(views(segs@).take(i as int) =~= views(segs@).take(i - 1).push(segs@[i - 1]@));
        assert(views(out@) =~= head + views(segs@).take(i as int));
    }
    assert(views(segs@).take(i as int) =~= views(segs@));
    out
}

/// `Path::starts_with`: the components of `base` begin the components of `p`.
pub open spec fn path_starts_with(p: Seq<char>, base: Seq<char>) -> bool {
    &&& components(base).len() <= components(p).len()
    &&& components(p).take(components(base).len() as int) == components(base)
}

/// `Path` equality: equal components.
pub open spec fn path_eq(p: Seq<char>, q: Seq<char>) -> bool {
    components(p) == components(q)
}

fn segs_eq_upto(a: &Vec<Vec<char>>, b: &Vec<Vec<char>>, n: usize) -> (r: bool)
    requires
        n <= a.len(),
        n <= b.len(),
    ensures
        r == (views(a@).take(n as int) == views(b@).take(n as int)),
{
    let mut i: usize = 0;
    while i < n
        invariant
            i <= n <= a.len(),
            n <= b.len(),
            forall|j: int| 0 <= j < i ==> a@[j]@ == b@[j]@,
        decreases n - i,
    {
        if !chars_eq(a[i].as_slice(), b[i].as_slice()) {
            assert(views(a@).take(n as int)[i as int] != views(b@).take(n as int)[i as int]);
            return false;
        }
        i += 1;
    }
    assert(views(a@).take(n as int) =~= views(b@).take(n as int));
    true
}

pub fn path_starts_with_exec(p: &[char], base: &[char]) -> (r: bool)
    ensures
        r == path_starts_with(p@, base@),
{
    let ps = components_exec(p);
    let bs = components_exec(base);
    if bs.len() > ps.len() {
        return false;
    }
    let r = segs_eq_upto(&ps, &bs, bs.len());
    assert(views(bs@).take(bs.len() as int) == views(bs@));
    r
}

pub fn path_eq_exec(p: &[char], q: &[char]) -> (r: bool)
    ensures
        r == path_eq(p@, q@),
{
    let ps = components_exec(p);
    let qs = components_exec(q);
    if ps.len() != qs.len() {
        assert(views(ps@).len() != views(qs@).len());
        return false;
    }
    let r = segs_eq_upto(&ps, &qs, ps.len());
    assert(views(ps@).take(ps.len() as int) == views(ps@));
    assert(views(qs@).take(qs.len() as int) == views(qs@));
    r
}

/// `Path::components().count()`: the prefix and the root count as components.
pub open spec fn component_count(p: Seq<char>) -> nat {
    components(p).len()
}

pub fn component_count_exec(p: &[char]) -> (r: usize)
    ensures
        r == component_count(p@),
{
    components_exec(p).len()
}

/// Where the names of a path begin: after its prefix, its root separator and a
/// leading `.`.
pub open spec fn body_start(p: Seq<char>) -> int {
    let k = prefix_len(p);
    k + (if k < p.len() && is_sep(p[k]) {
        1int
    } else {
        0int
    }) + (if has_cur_dir(p) {
        1int
    } else {
        0int
    })
}

/// The text without what ends it after position `lb` and names nothing: separators
/// and `.` components.
pub open spec fn trim_back(p: Seq<char>, lb: int) -> Seq<char>
    decreases p.len(),
{
    if p.len() <= lb || p.len() == 0 {
        p
    } else if is_sep(p.last()) || (p.last() == '.' && (p.len() - 1 == lb || is_sep(p[p.len() - 2]))) {
        trim_back(p.drop_last(), lb)
    } else {
        p
    }
}

/// The position of the last separator at or after `lb`, or `lb - 1` where there is none.
pub open spec fn last_sep_from(t: Seq<char>, lb: int) -> int
    decreases t.len(),
{
    if t.len() <= lb || t.len() == 0 {
        lb - 1
    } else if is_sep(t.last()) {
        t.len() - 1
    } else {
        last_sep_from(t.drop_last(), lb)
    }
}

/// `Path::parent`: the path without its last component, and without the separators
/// and `.` components that end it (never cutting into the prefix, the root or a
/// leading `.`); `None` where the last component is a prefix or a root, or there is
/// none.
pub open spec fn parent(p: Seq<char>) -> Option<Seq<char>> {
    let lb = body_start(p);
    let t = trim_back(p, lb);
    if t.len() > lb {
        let q = last_sep_from(t, lb);
        if q >= lb {
            Some(trim_back(t.take(q), lb))
        } else {
            Some(trim_back(t.take(lb), lb))
        }
    } else if has_cur_dir(p) {
        Some(p.take(prefix_len(p)))
    } else {
        None
    }
}

proof fn lemma_trim_back_bounds(p: Seq<char>, lb: int)
    requires
        0 <= lb,
    ensures
        trim_back(p, lb).len() <= p.len(),
        trim_back(p, lb) == p.take(trim_back(p, lb).len() as int),
        p.len() > lb ==> trim_back(p, lb).len() >= lb,
    decreases p.len(),
{
    if !(p.len() <= lb || p.len() == 0) {
        if is_sep(p.last()) || (p.last() == '.' && (p.len() - 1 == lb || is_sep(p[p.len() - 2]))) {
            lemma_trim_back_bounds(p.drop_last(), lb);
            let r = trim_back(p.drop_last(), lb);
            assert(r == p.drop_last().take(r.len() as int));
            assert(r =~= p.take(r.len() as int));
        } else {
            assert(p.take(p.len() as int) =~= p);
        }
    } else {
        assert(p.take(p.len() as int) =~= p);
    }
}

/// The length of `trim_back` of the first `n` characters.
fn trim_back_len(p: &[char], n: usize, lb: usize) -> (r: usize)
    requires
        n <= p.len(),
    ensures
        r == trim_back(p@.take(n as int), lb as int).len(),
        r <= n,
{
    let mut k: usize = n;
    proof {
        lemma_trim_back_bounds(p@.take(n as int), lb as int);
    }
    while k > lb && k > 0 && ((p[k - 1] == '\\' || p[k - 1] == '/') || (p[k - 1] == '.' && (k - 1 == lb || p[k - 2] == '\\'
        || p[k - 2] == '/')))
        invariant
            k <= n <= p.len(),
            trim_back(p@.take(k as int), lb as int) == trim_back(p@.take(n as int), lb as int),
        decreases k,
    {
        let ghost t = p@.take(k as int);
        assert(t.drop_last() =~= p@.take(k - 1));
        assert(t.last() == p@[k - 1]);
        if k >= 2 {
            assert(t[t.len() - 2] == p@[k - 2]);
        }
        k -= 1;
    }
    let ghost t = p@.take(k as int);
    if k > lb && k > 0 {
        assert(t.last() == p@[k - 1]);
        if k >= 2 {
            assert(t[t.len() - 2] == p@[k - 2]);
        }
    }
    assert(trim_back(t, lb as int) == t);
    k
}

proof fn lemma_last_sep_from(t: Seq<char>, lb: int)
    requires
        0 <= lb,
    ensures
        lb - 1 <= last_sep_from(t, lb) < t.len() || (t.len() <= lb && last_sep_from(t, lb) == lb - 1),
        last_sep_from(t, lb) >= lb ==> is_sep(t[last_sep_from(t, lb)]),
        forall|j: int| last_sep_from(t, lb) < j < t.len() && j >= lb ==> !is_sep(#[trigger] t[j]),
    decreases t.len(),
{
    if !(t.len() <= lb || t.len() == 0) && !is_sep(t.last()) {
        lemma_last_sep_from(t.drop_last(), lb);
        assert forall|j: int| last_sep_from(t, lb) < j < t.len() && j >= lb implies !is_sep(#[trigger] t[j]) by {
            if j < t.len() - 1 {
                assert(t[j] == t.drop_last()[j]);
            }
        }
    }
}

/// The position of the last separator at or after `lb` among the first `n`
/// characters, where there is one.
fn last_sep_from_exec(p: &[char], n: usize, lb: usize) -> (r: Option<usize>)
    requires
        n <= p.len(),
    ensures
        match r {
            Some(q) => q as int == last_sep_from(p@.take(n as int), lb as int) && q >= lb && q < n,
            None => last_sep_from(p@.take(n as int), lb as int) < lb,
        },
{
    let mut k: usize = n;
    while k > lb && k > 0 && !(p[k - 1] == '\\' || p[k - 1] == '/')
        invariant
            k <= n <= p.len(),
            last_sep_from(p@.take(k as int), lb as int) == last_sep_from(p@.take(n as int), lb as int),
        decreases k,
    {
        let ghost t = p@.take(k as int);
        assert(t.drop_last() =~= p@.take(k - 1));
        assert(t.last() == p@[k - 1]);
        k -= 1;
    }
    let ghost t = p@.take(k as int);
    if k > lb && k > 0 {
        assert(t.last() == p@[k - 1]);
        Some(k - 1)
    } else {
        None
    }
}

/// `Path::parent` of Windows path text.
pub fn parent_exec(p: &[char]) -> (r: Option<Vec<char>>)
    ensures
        match r {
            Some(v) => parent(p@) == Some(v@),
            None => parent(p@) is None,
        },
{
    let k = prefix_len_exec(p);
    let root = k < p.len() && (p[k] == '\\' || p[k] == '/');
    let unc = k > 2;
    let cur = !(unc || root) && k < p.len() && p[k] == '.' && (k + 1 == p.len() || p[k + 1] == '\\' || p[k + 1] == '/');
    assert(unc == is_unc(p@));
    assert(cur == has_cur_dir(p@));
    let lb: usize = k + (if root {
        1
    } else {
        0
    }) + (if cur {
        1
    } else {
        0
    });
    assert(lb == body_start(p@));
    assert(lb <= p.len());
    assert(p@.take(p.len() as int) =~= p@);
    let tl = trim_back_len(p, p.len(), lb);
    let ghost t = trim_back(p@, lb as int);
    proof {
        lemma_trim_back_bounds(p@, lb as int);
    }
    assert(t =~= p@.take(tl as int));
    if tl > lb {
        match last_sep_from_exec(p, tl, lb) {
            Some(q) => {
                assert(t.take(q as int) =~= p@.take(q as int));
                let ul = trim_back_len(p, q, lb);
                proof {
                    lemma_trim_back_bounds(p@.take(q as int), lb as int);
                }
                let v = copy_range(p, 0, ul);
                assert(v@ =~= trim_back(t.take(q as int), lb as int));
                Some(v)
            },
            None => {
                assert(t.take(lb as int) =~= p@.take(lb as int));
                let ul = trim_back_len(p, lb, lb);
                proof {
                    lemma_trim_back_bounds(p@.take(lb as int), lb as int);
                }
                let v = copy_range(p, 0, ul);
                assert(v@ =~= trim_back(t.take(lb as int), lb as int));
                Some(v)
            },
        }
    } else if cur {
        let v = copy_range(p, 0, k);
        assert(v@ =~= p@.take(k as int));
        Some(v)
    } else {
        None
    }
}

/// The state (current component, components so far) after taking the characters of
/// `x` from position `i` on.
pub open spec fn state_after(x: Seq<char>, i: int, cur: Seq<char>, acc: Seq<Seq<char>>) -> (Seq<char>, Seq<Seq<char>>)
    decreases x.len() - i,
{
    if i >= x.len() || i < 0 {
        (cur, acc)
    } else if is_sep(x[i]) {
        state_after(x, i + 1, seq![], flush(acc, cur))
    } else {
        state_after(x, i + 1, cur.push(x[i]), acc)
    }
}

proof fn lemma_segments_shift(x: Seq<char>, z: Seq<char>, j: int, cur: Seq<char>, acc: Seq<Seq<char>>)
    requires
        0 <= j <= z.len(),
    ensures
        segments_from(x + z, x.len() + j, cur, acc) == segments_from(z, j, cur, acc),
    decreases z.len() - j,
{
    if j < z.len() {
        assert((x + z)[x.len() + j] == z[j]);
        lemma_segments_shift(x, z, j + 1, seq![], flush(acc, cur));
        lemma_segments_shift(x, z, j + 1, cur.push(z[j]), acc);
    }
}

proof fn lemma_segments_prefix(x: Seq<char>, z: Seq<char>, i: int, cur: Seq<char>, acc: Seq<Seq<char>>)
    requires
        0 <= i <= x.len(),
    ensures
        segments_from(x + z, i, cur, acc) == segments_from(z, 0, state_after(x, i, cur, acc).0, state_after(x, i, cur, acc).1),
    decreases x.len() - i,
{
    if i < x.len() {
        assert((x + z)[i] == x[i]);
        lemma_segments_prefix(x, z, i + 1, seq![], flush(acc, cur));
        lemma_segments_prefix(x, z, i + 1, cur.push(x[i]), acc);
    } else {
        lemma_segments_shift(x, z, 0, cur, acc);
    }
}

proof fn lemma_segments_acc(p: Seq<char>, i: int, cur: Seq<char>, acc: Seq<Seq<char>>)
    requires
        0 <= i,
    ensures
        segments_from(p, i, cur, acc) == acc + segments_from(p, i, cur, seq![]),
    decreases p.len() - i,
{
    if i < p.len() {
        if is_sep(p[i]) {
            lemma_segments_acc(p, i + 1, seq![], flush(acc, cur));
            lemma_segments_acc(p, i + 1, seq![], flush(seq![], cur));
            assert(flush(acc, cur) =~= acc + flush(seq![], cur));
            assert(flush(acc, cur) + segments_from(p, i + 1, seq![], seq![]) =~= acc + (flush(seq![], cur) + segments_from(
                p,
                i + 1,
                seq![],
                seq![],
            )));
        } else {
            lemma_segments_acc(p, i + 1, cur.push(p[i]), acc);
            lemma_segments_acc(p, i + 1, cur.push(p[i]), seq![]);
        }
    } else {
        assert(flush(acc, cur) =~= acc + flush(seq![], cur));
    }
}

/// Components split at a separator: the components of `x`, then those of `y`.
pub proof fn lemma_segments_split(x: Seq<char>, s: char, y: Seq<char>)
    requires
        is_sep(s),
    ensures
        segments(x + seq![s] + y) == segments(x) + segments(y),
{
    let z = seq![s] + y;
    assert(x + seq![s] + y =~= x + z);
    lemma_segments_prefix(x, z, 0, seq![], seq![]);
    lemma_segments_prefix(x, Seq::<char>::empty(), 0, seq![], seq![]);
    assert(x + Seq::<char>::empty() =~= x);
    let st = state_after(x, 0, seq![], seq![]);
    assert(segments(x) == segments_from(Seq::<char>::empty(), 0, st.0, st.1));
    assert(z[0] == s);
    lemma_segments_shift(seq![s], y, 0, seq![], flush(st.1, st.0));
    assert(seq![s] + y =~= z);
    lemma_segments_acc(y, 0, seq![], flush(st.1, st.0));
}

/// A component as `segments` yields it: kept and free of separators.
pub open spec fn is_component(s: Seq<char>) -> bool {
    kept(s) && forall|j: int| 0 <= j < s.len() ==> !is_sep(#[trigger] s[j])
}

proof fn lemma_state_after_component(s: Seq<char>, i: int, cur: Seq<char>, acc: Seq<Seq<char>>)
    requires
        0 <= i <= s.len(),
        forall|j: int| 0 <= j < s.len() ==> !is_sep(#[trigger] s[j]),
    ensures
        state_after(s, i, cur, acc) == (cur + s.skip(i), acc),
    decreases s.len() - i,
{
    if i < s.len() {
        lemma_state_after_component(s, i + 1, cur.push(s[i]), acc);
        assert(cur.push(s[i]) + s.skip(i + 1) =~= cur + s.skip(i));
    } else {
        assert(cur + s.skip(i) =~= cur);
    }
}

/// A text without separators is one component where it is kept (not empty, not
/// `.`), and none otherwise.
pub proof fn lemma_segments_sep_free(s: Seq<char>)
    requires
        forall|j: int| 0 <= j < s.len() ==> !is_sep(#[trigger] s[j]),
    ensures
        segments(s) == if kept(s) {
            seq![s]
        } else {
            Seq::<Seq<char>>::empty()
        },
{
    lemma_segments_prefix(s, Seq::<char>::empty(), 0, seq![], seq![]);
    assert(s + Seq::<char>::empty() =~= s);
    lemma_state_after_component(s, 0, seq![], seq![]);
    assert(Seq::<char>::empty() + s.skip(0) =~= s);
    assert(flush(Seq::<Seq<char>>::empty(), s) =~= if kept(s) {
        seq![s]
    } else {
        Seq::<Seq<char>>::empty()
    });
}

/// A single component is its own only component.
pub proof fn lemma_segments_component(s: Seq<char>)
    requires
        is_component(s),
    ensures
        segments(s) == seq![s],
{
    lemma_segments_prefix(s, Seq::<char>::empty(), 0, seq![], seq![]);
    assert(s + Seq::<char>::empty() =~= s);
    lemma_state_after_component(s, 0, seq![], seq![]);
    assert(Seq::<char>::empty() + s.skip(0) =~= s);
}

proof fn lemma_segments_from_components(p: Seq<char>, i: int, cur: Seq<char>, acc: Seq<Seq<char>>, k: int)
    requires
        0 <= i,
        forall|j: int| 0 <= j < acc.len() ==> is_component(#[trigger] acc[j]),
        forall|j: int| 0 <= j < cur.len() ==> !is_sep(#[trigger] cur[j]),
        0 <= k < segments_from(p, i, cur, acc).len(),
    ensures
        is_component(segments_from(p, i, cur, acc)[k]),
    decreases p.len() - i,
{
    if i < p.len() {
        if is_sep(p[i]) {
            lemma_segments_from_components(p, i + 1, seq![], flush(acc, cur), k);
        } else {
            lemma_segments_from_components(p, i + 1, cur.push(p[i]), acc, k);
        }
    }
}

/// Every component of a path is kept and free of separators.
pub proof fn lemma_segments_are_components(p: Seq<char>, k: int)
    requires
        0 <= k < segments(p).len(),
    ensures
        is_component(segments(p)[k]),
{
    lemma_segments_from_components(p, 0, seq![], seq![], k);
}

/// Text that begins with a `.` component.
pub open spec fn dot_start(b: Seq<char>) -> bool {
    b.len() > 0 && b[0] == '.' && (b.len() == 1 || is_sep(b[1]))
}

/// A path that begins with two separators without being a UNC path (`\\server`
/// alone): text joined onto it can become a server and share.
pub open spec fn is_bare_double_sep(a: Seq<char>) -> bool {
    a.len() >= 2 && is_sep(a[0]) && is_sep(a[1]) && !is_unc(a)
}

proof fn lemma_next_sep_extend(a: Seq<char>, x: Seq<char>, i: int)
    requires
        0 <= i <= a.len(),
    ensures
        next_sep(a, i) < a.len() ==> next_sep(a + x, i) == next_sep(a, i),
        next_sep(a, i) == a.len() && x.len() > 0 && is_sep(x[0]) ==> next_sep(a + x, i) == a.len(),
    decreases a.len() - i,
{
    if i < a.len() {
        assert((a + x)[i] == a[i]);
        if !is_sep(a[i]) {
            lemma_next_sep_extend(a, x, i + 1);
        }
    } else if x.len() > 0 {
        assert((a + x)[i] == x[0]);
    }
}

/// Joining onto `a` a relative path `b` that begins with a name: the components of
/// `a`, then the names and steps of `b`. Left out: a bare drive `a` (`C:` joined
/// with `b` is drive-relative) and an `a` that begins with two separators without
/// being a UNC path (the join could read as a server and share).
pub proof fn lemma_components_join(a: Seq<char>, b: Seq<char>)
    requires
        !is_drive_only(a),
        !is_bare_double_sep(a),
        b.len() > 0,
        !is_sep(b[0]),
        !has_drive(b),
        !dot_start(b),
    ensures
        components(join(a, b)) == components(a) + segments(b),
{
    let j = join(a, b);
    if a.len() == 0 {
        assert(j == b);
        assert(!is_unc(b));
        assert(prefix_len(b) == 0);
        assert(b.skip(0) =~= b);
        assert(a.skip(0) =~= a);
        assert(segments(a) =~= Seq::<Seq<char>>::empty()) by {
            reveal_with_fuel(segments_from, 2);
        }
        assert(components(a) =~= Seq::<Seq<char>>::empty());
        assert(components(b) =~= segments(b));
        assert(components(a) + segments(b) =~= segments(b));
    } else {
        let sep_added = !is_sep(a.last());
        let m: Seq<char> = if sep_added {
            seq!['\\']
        } else {
            seq![]
        };
        let x = m + b;
        assert(j =~= a + x);
        assert(x.len() > 0);
        if sep_added {
            assert(x[0] == '\\');
        } else {
            assert(x[0] == b[0]);
        }
        if is_unc(a) {
            let s = next_sep(a, 2);
            lemma_next_sep_bounds(a, 2);
            lemma_next_sep_extend(a, x, 2);
            assert(next_sep(j, 2) == s);
            let e = next_sep(a, s + 1);
            lemma_next_sep_bounds(a, s + 1);
            lemma_next_sep_extend(a, x, s + 1);
            if e == a.len() {
                assert(!is_sep(a[e - 1]));
                assert(a.last() == a[e - 1]);
                assert(sep_added);
            }
            assert(next_sep(j, s + 1) == e);
            assert(j[0] == a[0] && j[1] == a[1]);
            assert(is_unc(j));
            assert(prefix_len(j) == e && prefix_len(a) == e);
            assert(j.subrange(2, s) =~= a.subrange(2, s));
            assert(j.subrange(s + 1, e) =~= a.subrange(s + 1, e));
            assert(prefix_component(j) == prefix_component(a));
            if !sep_added {
                assert(e < a.len());
            }
        } else {
            if a.len() >= 2 {
                assert(j[0] == a[0] && j[1] == a[1]);
            } else if is_sep(a[0]) {
                assert(!sep_added);
                assert(j[1] == b[0]);
            } else {
                assert(j[0] == a[0]);
                assert(j[1] == '\\');
            }
            assert(!is_unc(j));
            assert(has_drive(j) == has_drive(a));
            assert(prefix_len(j) == prefix_len(a));
            if has_drive(a) {
                assert(j[0] == a[0]);
                assert(a.len() > 2);
            }
            assert(prefix_component(j) == prefix_component(a));
            assert(prefix_len(a) < a.len());
        }
        let k = prefix_len(a);
        assert(0 <= k <= a.len());
        if k < a.len() {
            assert(j[k] == a[k]);
            if k + 1 < a.len() {
                assert(j[k + 1] == a[k + 1]);
            } else if a[k] == '.' {
                assert(sep_added);
                assert(j[k + 1] == '\\');
            }
        }
        assert(has_root(j) == has_root(a));
        assert(has_cur_dir(j) == has_cur_dir(a));
        if sep_added {
            assert(j.skip(k) =~= a.skip(k) + seq!['\\'] + b);
            lemma_segments_split(a.skip(k), '\\', b);
        } else {
            assert(k < a.len());
            let x0 = a.skip(k).drop_last();
            assert(a.skip(k) =~= x0 + seq![a.last()] + Seq::<char>::empty());
            lemma_segments_split(x0, a.last(), Seq::<char>::empty());
            assert(segments(Seq::<char>::empty()) =~= Seq::<Seq<char>>::empty()) by {
                reveal_with_fuel(segments_from, 2);
            }
            assert(segments(x0) + Seq::<Seq<char>>::empty() =~= segments(x0));
            assert(j.skip(k) =~= x0 + seq![a.last()] + b);
            lemma_segments_split(x0, a.last(), b);
        }
        assert(components(j) =~= components(a) + segments(b));
    }
}
} // verus!
