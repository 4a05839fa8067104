//! File paths as text, as Unix and as Windows write them.
//!
//! A path is a head, which only Windows has (a drive, a share or a device), and
//! components after it. Repeated separators, a separator at the end, and `.`
//! anywhere but at the front of a relative path say nothing and are passed over.
use vstd::prelude::*;
use crate::text::{chars_of, same, texts};

verus! {

broadcast use vstd::string::group_string_axioms;

/// How a system writes paths.
#[derive(Debug, Clone, Copy, PartialEq, Eq, Structural)]
pub enum PathStyle {
    Unix,
    Windows,
}

/// How what follows the head of a path is read. Windows takes a path behind
/// `\\?\` verbatim: only `\` separates there, and `.` is a component.
#[derive(Debug, Clone, Copy, PartialEq, Eq, Structural)]
pub enum Reading {
    Unix,
    Windows,
    Verbatim,
}

// ------------------------------------------------------------------- components

/// Whether a character separates components.
pub open spec fn divides(how: Reading, c: char) -> bool {
    match how {
        Reading::Unix => c == '/',
        Reading::Windows => c == '/' || c == '\\',
        Reading::Verbatim => c == '\\',
    }
}

/// How a path without a head is read.
pub open spec fn native(style: PathStyle) -> Reading {
    match style {
        PathStyle::Unix => Reading::Unix,
        PathStyle::Windows => Reading::Windows,
    }
}

fn own_reading(style: PathStyle) -> (r: Reading)
    ensures
        r == native(style),
{
    match style {
        PathStyle::Unix => Reading::Unix,
        PathStyle::Windows => Reading::Windows,
    }
}

fn divider(how: Reading, c: char) -> (r: bool)
    ensures
        r == divides(how, c),
{
    match how {
        Reading::Unix => c == '/',
        Reading::Windows => c == '/' || c == '\\',
        Reading::Verbatim => c == '\\',
    }
}

/// `t` without what says nothing at its end.
pub open spec fn bare(how: Reading, t: Seq<char>) -> Seq<char>
    decreases t.len(),
{
    if t.len() > 0 && divides(how, t.last()) {
        bare(how, t.drop_last())
    } else if how != Reading::Verbatim && t.len() > 1 && t.last() == '.' && divides(
        how,
        t[t.len() - 2],
    ) {
        bare(how, t.drop_last())
    } else {
        t
    }
}

/// Where the last component of `t` starts.
pub open spec fn name_start(how: Reading, t: Seq<char>) -> int
    decreases t.len(),
{
    if t.len() == 0 || divides(how, t.last()) {
        t.len() as int
    } else {
        name_start(how, t.drop_last())
    }
}

/// How many characters stand before the first separator.
pub open spec fn piece_len(how: Reading, t: Seq<char>) -> int
    decreases t.len(),
{
    if t.len() == 0 || divides(how, t[0]) {
        0
    } else {
        1 + piece_len(how, t.drop_first())
    }
}

/// The components of `t`.
pub open spec fn parts_of(how: Reading, t: Seq<char>) -> Seq<Seq<char>>
    decreases t.len(),
{
    if t.len() == 0 {
        seq![]
    } else {
        let k = piece_len(how, t);
        let rest = if 0 <= k < t.len() {
            parts_of(how, t.skip(k + 1))
        } else {
            seq![]
        };
        if k <= 0 || (how != Reading::Verbatim && t.take(k) == "."@) {
            rest
        } else {
            seq![t.take(k)] + rest
        }
    }
}

// ------------------------------------------------------------------------ heads

/// Whether text starts with a drive letter and a colon.
pub open spec fn has_drive(s: Seq<char>) -> bool {
    s.len() >= 2 && s[1] == ':' && (65 <= s[0] as u32 <= 90 || 97 <= s[0] as u32 <= 122)
}

/// Whether a path is taken verbatim.
pub open spec fn is_verbatim(style: PathStyle, p: Seq<char>) -> bool {
    style == PathStyle::Windows && p.len() >= 4 && p[0] == '\\' && p[1] == '\\' && p[2] == '?' && p[3]
        == '\\'
}

/// How the components of a path are read.
pub open spec fn reading(style: PathStyle, p: Seq<char>) -> Reading {
    if style == PathStyle::Unix {
        Reading::Unix
    } else if is_verbatim(style, p) {
        Reading::Verbatim
    } else {
        Reading::Windows
    }
}

/// The length of the head of a verbatim path, behind its first four
/// characters: a share, a drive, or a name.
pub open spec fn verbatim_head(v: Seq<char>) -> int {
    if v.len() >= 4 && v[0] == 'U' && v[1] == 'N' && v[2] == 'C' && divides(Reading::Windows, v[3]) {
        let server = piece_len(Reading::Verbatim, v.skip(4));
        let share = piece_len(Reading::Verbatim, v.skip(5 + server));
        if 4 + server < v.len() && share > 0 {
            5 + server + share
        } else {
            4 + server
        }
    } else if has_drive(v) && (v.len() == 2 || divides(Reading::Windows, v[2])) {
        2
    } else {
        piece_len(Reading::Verbatim, v)
    }
}

/// The length of a server and a share at the start of `q`, or 0 where one of
/// them is missing.
pub open spec fn share_len(q: Seq<char>) -> int {
    let server = piece_len(Reading::Windows, q);
    let share = piece_len(Reading::Windows, q.skip(server + 1));
    if 0 < server < q.len() && share > 0 {
        server + 1 + share
    } else {
        0
    }
}

/// The length of the head of a path.
pub open spec fn head_len(style: PathStyle, p: Seq<char>) -> int {
    if style == PathStyle::Unix {
        0
    } else if is_verbatim(style, p) {
        4 + verbatim_head(p.skip(4))
    } else if p.len() >= 2 && divides(Reading::Windows, p[0]) && divides(Reading::Windows, p[1]) {
        if p.len() >= 4 && p[2] == '.' && divides(Reading::Windows, p[3]) {
            4 + piece_len(Reading::Windows, p.skip(4))
        } else if share_len(p.skip(2)) > 0 {
            2 + share_len(p.skip(2))
        } else {
            0
        }
    } else if has_drive(p) {
        2
    } else {
        0
    }
}

/// What follows the head of a path.
pub open spec fn body(style: PathStyle, p: Seq<char>) -> Seq<char> {
    p.skip(head_len(style, p))
}

proof fn lemma_piece_fits(how: Reading, t: Seq<char>)
    ensures
        0 <= piece_len(how, t) <= t.len(),
    decreases t.len(),
{
    if t.len() > 0 && !divides(how, t[0]) {
        lemma_piece_fits(how, t.drop_first());
    }
}

/// A path is no shorter than its head.
pub proof fn lemma_head_fits(style: PathStyle, p: Seq<char>)
    ensures
        0 <= head_len(style, p) <= p.len(),
{
    let v = p.skip(4);
    lemma_piece_fits(Reading::Verbatim, v);
    lemma_piece_fits(Reading::Verbatim, v.skip(4));
    lemma_piece_fits(Reading::Verbatim, v.skip(5 + piece_len(Reading::Verbatim, v.skip(4))));
    lemma_piece_fits(Reading::Windows, v);
    let q = p.skip(2);
    lemma_piece_fits(Reading::Windows, q);
    lemma_piece_fits(Reading::Windows, q.skip(piece_len(Reading::Windows, q) + 1));
}

/// Where the component that starts at `from` ends.
fn piece_end(v: &Vec<char>, from: usize, how: Reading) -> (k: usize)
    requires
        from <= v.len(),
    ensures
        from <= k <= v.len(),
        k == from + piece_len(how, v@.skip(from as int)),
{
    let mut k: usize = from;
    while k < v.len() && !divider(how, v[k])
        invariant
            from <= k <= v.len(),
            piece_len(how, v@.skip(from as int)) == k - from + piece_len(how, v@.skip(k as int)),
        decreases v.len() - k,
    {
        assert(v@.skip(k as int).drop_first() =~= v@.skip(k + 1));
        k += 1;
    }
    k
}

fn starts_with_drive(v: &Vec<char>, at: usize) -> (r: bool)
    requires
        at <= v.len(),
    ensures
        r == has_drive(v@.skip(at as int)),
{
    if v.len() - at < 2 || v[at + 1] != ':' {
        return false;
    }
    let letter: u32 = v[at] as u32;
    (65 <= letter && letter <= 90) || (97 <= letter && letter <= 122)
}

fn verbatim_head_end(v: &Vec<char>) -> (k: usize)
    requires
        v.len() >= 4,
    ensures
        k == 4 + verbatim_head(v@.skip(4)),
        k <= v.len(),
{
    let n: usize = v.len();
    let ghost tail = v@.skip(4);
    if n >= 8 && v[4] == 'U' && v[5] == 'N' && v[6] == 'C' && divider(Reading::Windows, v[7]) {
        assert(tail.skip(4) =~= v@.skip(8));
        let server: usize = piece_end(v, 8, Reading::Verbatim);
        if server < n {
            assert(tail.skip(5 + (server - 8)) =~= v@.skip(server + 1));
            let share: usize = piece_end(v, server + 1, Reading::Verbatim);
            if share > server + 1 {
                return share;
            }
        }
        return server;
    }
    if starts_with_drive(v, 4) && (n == 6 || divider(Reading::Windows, v[6])) {
        return 6;
    }
    piece_end(v, 4, Reading::Verbatim)
}

/// Where the head of a path ends.
fn head_end(v: &Vec<char>, style: PathStyle) -> (k: usize)
    ensures
        k == head_len(style, v@),
        k <= v.len(),
{
    proof {
        lemma_head_fits(style, v@);
    }
    let n: usize = v.len();
    if style == PathStyle::Unix {
        return 0;
    }
    if n >= 4 && v[0] == '\\' && v[1] == '\\' && v[2] == '?' && v[3] == '\\' {
        return verbatim_head_end(v);
    }
    if n >= 2 && divider(Reading::Windows, v[0]) && divider(Reading::Windows, v[1]) {
        if n >= 4 && v[2] == '.' && divider(Reading::Windows, v[3]) {
            return piece_end(v, 4, Reading::Windows);
        }
        let ghost q = v@.skip(2);
        let server: usize = piece_end(v, 2, Reading::Windows);
        if server > 2 && server < n {
            assert(q.skip(server - 2 + 1) =~= v@.skip(server + 1));
            let share: usize = piece_end(v, server + 1, Reading::Windows);
            if share > server + 1 {
                return share;
            }
        }
        return 0;
    }
    assert(v@.skip(0) =~= v@);
    if starts_with_drive(v, 0) {
        2
    } else {
        0
    }
}

fn reading_at(v: &Vec<char>, style: PathStyle) -> (how: Reading)
    ensures
        how == reading(style, v@),
{
    if style == PathStyle::Unix {
        Reading::Unix
    } else if v.len() >= 4 && v[0] == '\\' && v[1] == '\\' && v[2] == '?' && v[3] == '\\' {
        Reading::Verbatim
    } else {
        Reading::Windows
    }
}

// ------------------------------------------------------------------------ names

/// The last component of a path, where it is a name.
pub open spec fn file_name_of(style: PathStyle, p: Seq<char>) -> Option<Seq<char>> {
    let how = reading(style, p);
    let t = bare(how, body(style, p));
    let name = t.skip(name_start(how, t));
    if name.len() == 0 || name == "."@ || name == ".."@ {
        None
    } else {
        Some(name)
    }
}

/// The path without its last component: its root where nothing else is left.
pub open spec fn parent_of(style: PathStyle, p: Seq<char>) -> Option<Seq<char>> {
    let how = reading(style, p);
    let h = head_len(style, p);
    let t = bare(how, body(style, p));
    let rest = t.take(name_start(how, t));
    if t.len() == 0 || (h > 0 && t == "."@) {
        None
    } else if rest.len() > 0 && bare(how, rest).len() == 0 {
        Some(p.take(h + 1))
    } else {
        Some(p.take(h + bare(how, rest).len()))
    }
}

/// Where the last `.` of a name stands, or -1.
pub open spec fn last_dot(name: Seq<char>) -> int
    decreases name.len(),
{
    if name.len() == 0 {
        -1
    } else if name.last() == '.' {
        name.len() - 1
    } else {
        last_dot(name.drop_last())
    }
}

/// What follows the last `.` of the file name, unless the name starts there.
pub open spec fn extension_of(style: PathStyle, p: Seq<char>) -> Option<Seq<char>> {
    match file_name_of(style, p) {
        Some(name) => if last_dot(name) > 0 {
            Some(name.skip(last_dot(name) + 1))
        } else {
            None
        },
        None => None,
    }
}

/// The length of `v[h..from]` without what says nothing at its end, and of `h`.
fn bare_end(v: &Vec<char>, h: usize, from: usize, how: Reading) -> (n: usize)
    requires
        h <= from <= v.len(),
    ensures
        h <= n <= from,
        v@.subrange(h as int, n as int) == bare(how, v@.subrange(h as int, from as int)),
{
    let mut n: usize = from;
    while n > h && (divider(how, v[n - 1]) || (how != Reading::Verbatim && n - h > 1 && v[n - 1] == '.'
        && divider(how, v[n - 2])))
        invariant
            h <= n <= from <= v.len(),
            bare(how, v@.subrange(h as int, n as int)) == bare(
                how,
                v@.subrange(h as int, from as int),
            ),
        decreases n,
    {
        assert(v@.subrange(h as int, n as int).drop_last() =~= v@.subrange(h as int, n - 1));
        n -= 1;
    }
    n
}

/// Where the last component of `v[h..n]` starts.
fn name_at(v: &Vec<char>, h: usize, n: usize, how: Reading) -> (s: usize)
    requires
        h <= n <= v.len(),
    ensures
        s == h + name_start(how, v@.subrange(h as int, n as int)),
        h <= s <= n,
{
    let mut s: usize = n;
    while s > h && !divider(how, v[s - 1])
        invariant
            h <= s <= n <= v.len(),
            name_start(how, v@.subrange(h as int, s as int)) == name_start(
                how,
                v@.subrange(h as int, n as int),
            ),
        decreases s,
    {
        assert(v@.subrange(h as int, s as int).drop_last() =~= v@.subrange(h as int, s - 1));
        s -= 1;
    }
    s
}

/// The last component of a path, where it is a name.
pub fn file_name(style: PathStyle, p: &str) -> (r: Option<&str>)
    ensures
        match r {
            Some(name) => file_name_of(style, p@) == Some(name@),
            None => file_name_of(style, p@) is None,
        },
{
    let v = chars_of(p);
    let how = reading_at(&v, style);
    let h: usize = head_end(&v, style);
    assert(v@.subrange(h as int, v@.len() as int) =~= body(style, p@));
    let n: usize = bare_end(&v, h, v.len(), how);
    let s: usize = name_at(&v, h, n, how);
    let name = p.substring_char(s, n);
    assert(name@ =~= v@.subrange(h as int, n as int).skip(s - h));
    if s == n || same(name, ".") || same(name, "..") {
        None
    } else {
        Some(name)
    }
}

/// The path without its last component.
pub fn parent(style: PathStyle, p: &str) -> (r: Option<&str>)
    ensures
        match r {
            Some(q) => parent_of(style, p@) == Some(q@),
            None => parent_of(style, p@) is None,
        },
{
    let v = chars_of(p);
    let how = reading_at(&v, style);
    let h: usize = head_end(&v, style);
    assert(v@.subrange(h as int, v@.len() as int) =~= body(style, p@));
    let n: usize = bare_end(&v, h, v.len(), how);
    let ghost t = v@.subrange(h as int, n as int);
    if n == h {
        return None;
    }
    if h > 0 {
        let whole = p.substring_char(h, n);
        assert(whole@ =~= t);
        if same(whole, ".") {
            return None;
        }
    }
    let s: usize = name_at(&v, h, n, how);
    let m: usize = bare_end(&v, h, s, how);
    assert(t.take(s - h) =~= v@.subrange(h as int, s as int));
    if s > h && m == h {
        assert(p@.subrange(0, h + 1) =~= p@.take(h + 1));
        Some(p.substring_char(0, h + 1))
    } else {
        assert(p@.subrange(0, m as int) =~= p@.take(m as int));
        Some(p.substring_char(0, m))
    }
}

/// What follows the last `.` of the file name, unless the name starts there.
pub fn extension(style: PathStyle, p: &str) -> (r: Option<&str>)
    ensures
        match r {
            Some(e) => extension_of(style, p@) == Some(e@),
            None => extension_of(style, p@) is None,
        },
{
    let name = match file_name(style, p) {
        Some(name) => name,
        None => {
            return None;
        },
    };
    let v = chars_of(name);
    assert(name@.take(name@.len() as int) =~= name@);
    let mut k: usize = v.len();
    while k > 0 && v[k - 1] != '.'
        invariant
            v@ == name@,
            k <= v.len(),
            last_dot(name@.take(k as int)) == last_dot(name@),
        decreases k,
    {
        assert(name@.take(k as int).drop_last() =~= name@.take(k - 1));
        k -= 1;
    }
    if k > 1 {
        assert(name@.subrange(k as int, v.len() as int) =~= name@.skip(k as int));
        Some(name.substring_char(k, v.len()))
    } else {
        None
    }
}

// ---------------------------------------------------------------------- joining

/// The components `have`, followed by `more`: each `..` takes back the name
/// before it.
pub open spec fn climbed(have: Seq<Seq<char>>, more: Seq<Seq<char>>) -> Seq<Seq<char>>
    decreases more.len(),
{
    if more.len() == 0 {
        have
    } else if more[0] == ".."@ {
        if have.len() > 0 && have.last() != "."@ && have.last() != ".."@ {
            climbed(have.drop_last(), more.drop_first())
        } else {
            climbed(have, more.drop_first())
        }
    } else {
        climbed(have.push(more[0]), more.drop_first())
    }
}

/// Components, each behind a `\`.
pub open spec fn spelled(parts: Seq<Seq<char>>) -> Seq<char>
    decreases parts.len(),
{
    if parts.len() == 0 {
        seq![]
    } else {
        spelled(parts.drop_last()).push('\\') + parts.last()
    }
}

/// Whether a path has a root behind its head.
pub open spec fn is_rooted(style: PathStyle, p: Seq<char>) -> bool {
    body(style, p).len() > 0 && divides(
        native(style),
        body(style, p)[0],
    )
}

/// `part`, which has no head, under a path that is taken verbatim: nothing says
/// `.` or `..` there.
pub open spec fn verbatim_joined(base: Seq<char>, part: Seq<char>) -> Seq<char> {
    let style = PathStyle::Windows;
    let have = if is_rooted(style, part) {
        seq![]
    } else {
        parts_of(Reading::Verbatim, body(style, base))
    };
    let parts = climbed(have, parts_of(Reading::Windows, part));
    let head = base.take(head_len(style, base));
    if parts.len() > 0 {
        head + spelled(parts)
    } else if is_rooted(style, part) || is_rooted(style, base) {
        head.push('\\')
    } else {
        head
    }
}

/// `part` under `base`. A `part` with a head stands alone, and one with a root
/// keeps the head of `base`.
pub open spec fn joined(style: PathStyle, base: Seq<char>, part: Seq<char>) -> Seq<char> {
    if head_len(style, part) > 0 {
        part
    } else if is_verbatim(style, base) && part.len() > 0 {
        verbatim_joined(base, part)
    } else if is_rooted(style, part) {
        base.take(head_len(style, base)) + part
    } else if base.len() == 0 || divides(
        native(style),
        base.last(),
    ) || (style == PathStyle::Windows && base.len() == 2 && has_drive(base)) {
        base + part
    } else {
        base.push(
            if style == PathStyle::Unix {
                '/'
            } else {
                '\\'
            },
        ) + part
    }
}
/// The components of `p` from place `from` on.
fn parts_from(p: &str, v: &Vec<char>, from: usize, how: Reading) -> (out: Vec<String>)
    requires
        v@ == p@,
        from <= v.len(),
    ensures
        texts(out@) == parts_of(how, p@.skip(from as int)),
{
    let mut out: Vec<String> = Vec::new();
    let mut i: usize = from;
    let ghost all = parts_of(how, p@.skip(from as int));
    assert(texts(out@) =~= seq![]);
    assert(texts(out@) + all =~= all);
    while i < v.len()
        invariant
            v@ == p@,
            i <= v.len(),
            all == texts(out@) + parts_of(how, p@.skip(i as int)),
        decreases v.len() - i,
    {
        let k: usize = piece_end(v, i, how);
        let piece = p.substring_char(i, k);
        let ghost t = p@.skip(i as int);
        let ghost before = out@;
        assert(piece@ =~= t.take(k - i));
        let keep: bool = k > i && (how == Reading::Verbatim || !same(piece, "."));
        let next: usize = if k < v.len() {
            k + 1
        } else {
            k
        };
        let ghost rest = parts_of(how, p@.skip(next as int));
        proof {
            if k < v.len() {
                assert(t.skip(k - i + 1) =~= p@.skip(k + 1));
            } else {
                assert(p@.skip(next as int) =~= seq![]);
            }
        }
        assert(parts_of(how, t) == (if keep {
            seq![piece@] + rest
        } else {
            rest
        }));
        if keep {
            out.push(piece.to_owned());
            assert(texts(out@) =~= texts(before).push(piece@));
            assert(texts(before) + (seq![piece@] + rest) =~= texts(out@) + rest);
        }
        i = next;
    }
    assert(p@.skip(i as int) =~= seq![]);
    assert(texts(out@) + parts_of(how, p@.skip(i as int)) =~= texts(out@));
    out
}

fn climb(have: Vec<String>, more: &Vec<String>) -> (r: Vec<String>)
    ensures
        texts(r@) == climbed(texts(have@), texts(more@)),
{
    let mut r = have;
    let ghost goal = climbed(texts(r@), texts(more@));
    let ghost all = texts(more@);
    let mut i: usize = 0;
    assert(all.skip(0) =~= all);
    while i < more.len()
        invariant
            all == texts(more@),
            i <= more.len(),
            goal == climbed(texts(r@), all.skip(i as int)),
        decreases more.len() - i,
    {
        let ghost before = r@;
        let ghost left = all.skip(i as int);
        assert(left[0] == more@[i as int]@);
        assert(left.drop_first() =~= all.skip(i + 1));
        if same(more[i].as_str(), "..") {
            let n: usize = r.len();
            if n > 0 {
                assert(texts(before).last() == before.last()@);
                if !same(r[n - 1].as_str(), ".") && !same(r[n - 1].as_str(), "..") {
                    r.pop();
                    assert(texts(r@) =~= texts(before).drop_last());
                }
            }
        } else {
            r.push(more[i].clone());
            assert(texts(r@) =~= texts(before).push(left[0]));
        }
        i += 1;
    }
    assert(all.skip(i as int) =~= seq![]);
    r
}

fn spell(out: &mut String, parts: &Vec<String>)
    ensures
        final(out)@ == old(out)@ + spelled(texts(parts@)),
{
    let ghost all = texts(parts@);
    let ghost start = out@;
    let mut i: usize = 0;
    assert(all.take(0) =~= seq![]);
    assert(start + spelled(all.take(0)) =~= start);
    while i < parts.len()
        invariant
            all == texts(parts@),
            i <= parts.len(),
            out@ == start + spelled(all.take(i as int)),
        decreases parts.len() - i,
    {
        let ghost front = spelled(all.take(i as int));
        assert(all.take(i + 1).drop_last() =~= all.take(i as int));
        assert(all.take(i + 1).last() == parts@[i as int]@);
        out.push('\\');
        out.append(parts[i].as_str());
        assert(out@ =~= start + (front.push('\\') + parts@[i as int]@));
        i += 1;
    }
    assert(all.take(i as int) =~= all);
}

fn rooted(v: &Vec<char>, h: usize, style: PathStyle) -> (r: bool)
    requires
        h == head_len(style, v@),
        h <= v.len(),
    ensures
        r == is_rooted(style, v@),
{
    h < v.len() && divider(own_reading(style), v[h])
}

fn join_verbatim(base: &str, part: &str) -> (r: String)
    requires
        is_verbatim(PathStyle::Windows, base@),
        head_len(PathStyle::Windows, part@) == 0,
    ensures
        r@ == verbatim_joined(base@, part@),
{
    let style = PathStyle::Windows;
    let b = chars_of(base);
    let p = chars_of(part);
    let h: usize = head_end(&b, style);
    let part_rooted: bool = rooted(&p, 0, style);
    let base_rooted: bool = rooted(&b, h, style);
    let have: Vec<String> = if part_rooted {
        let none: Vec<String> = Vec::new();
        assert(texts(none@) =~= seq![]);
        none
    } else {
        parts_from(base, &b, h, Reading::Verbatim)
    };
    assert(part@.skip(0) =~= part@);
    let parts = climb(have, &parts_from(part, &p, 0, Reading::Windows));
    assert(texts(parts@).len() == parts@.len());
    let mut out = base.substring_char(0, h).to_owned();
    assert(out@ =~= base@.take(h as int));
    if parts.len() > 0 {
        spell(&mut out, &parts);
    } else if part_rooted || base_rooted {
        out.push('\\');
    }
    out
}

/// `part` under `base`.
pub fn join(style: PathStyle, base: &str, part: &str) -> (r: String)
    ensures
        r@ == joined(style, base@, part@),
{
    let b = chars_of(base);
    let p = chars_of(part);
    if head_end(&p, style) > 0 {
        return part.to_owned();
    }
    if reading_at(&b, style) == Reading::Verbatim && p.len() > 0 {
        return join_verbatim(base, part);
    }
    if rooted(&p, 0, style) {
        let h: usize = head_end(&b, style);
        let mut out = base.substring_char(0, h).to_owned();
        assert(out@ =~= base@.take(h as int));
        out.append(part);
        return out;
    }
    assert(b@.skip(0) =~= b@);
    let drive: bool = style == PathStyle::Windows && b.len() == 2 && starts_with_drive(&b, 0);
    let mut out = base.to_owned();
    if b.len() > 0 && !divider(own_reading(style), b[b.len() - 1]) && !drive {
        out.push(
            if style == PathStyle::Unix {
                '/'
            } else {
                '\\'
            },
        );
    }
    out.append(part);
    out
}

// --------------------------------------------------------------- changing names

/// The path with its file name replaced; one without a file name gets it added.
pub open spec fn with_name(style: PathStyle, p: Seq<char>, name: Seq<char>) -> Seq<char> {
    match (file_name_of(style, p), parent_of(style, p)) {
        (Some(_), Some(dir)) => joined(style, dir, name),
        _ => joined(style, p, name),
    }
}

/// The path with its file name replaced.
pub fn with_file_name(style: PathStyle, p: &str, name: &str) -> (r: String)
    ensures
        r@ == with_name(style, p@, name@),
{
    match (file_name(style, p), parent(style, p)) {
        (Some(_), Some(dir)) => join(style, dir, name),
        _ => join(style, p, name),
    }
}

/// The path with what follows the last `.` of its file name replaced, or with
/// an extension added where there is nothing; one without a file name stays as
/// it is.
pub open spec fn extended(style: PathStyle, p: Seq<char>, ext: Seq<char>) -> Seq<char> {
    match file_name_of(style, p) {
        Some(name) => {
            let how = reading(style, p);
            let t = bare(how, body(style, p));
            let stem = if last_dot(name) > 0 {
                last_dot(name)
            } else {
                name.len() as int
            };
            p.take(head_len(style, p) + name_start(how, t) + stem) + "."@ + ext
        },
        None => p,
    }
}

/// The path with another extension: the one that it has is cut from its end,
/// and the new one set.
pub open spec fn with_ext(style: PathStyle, p: Seq<char>, ext: Seq<char>) -> Seq<char> {
    match extension_of(style, p) {
        Some(e) => extended(style, p.take(p.len() - e.len()), ext),
        None => extended(style, p, ext),
    }
}

fn extend(style: PathStyle, p: &str, ext: &str) -> (r: String)
    ensures
        r@ == extended(style, p@, ext@),
{
    let v = chars_of(p);
    let how = reading_at(&v, style);
    let h: usize = head_end(&v, style);
    assert(v@.subrange(h as int, v@.len() as int) =~= body(style, p@));
    let n: usize = bare_end(&v, h, v.len(), how);
    let s: usize = name_at(&v, h, n, how);
    let name = match file_name(style, p) {
        Some(name) => name,
        None => {
            return p.to_owned();
        },
    };
    let w = chars_of(name);
    assert(name@ =~= v@.subrange(s as int, n as int)) by {
        assert(v@.subrange(h as int, n as int).skip(s - h) =~= v@.subrange(s as int, n as int));
    }
    assert(name@.take(name@.len() as int) =~= name@);
    let mut k: usize = w.len();
    while k > 0 && w[k - 1] != '.'
        invariant
            w@ == name@,
            k <= w.len(),
            last_dot(name@.take(k as int)) == last_dot(name@),
        decreases k,
    {
        assert(name@.take(k as int).drop_last() =~= name@.take(k - 1));
        k -= 1;
    }
    let stem: usize = if k > 1 {
        k - 1
    } else {
        w.len()
    };
    let mut out = p.substring_char(0, s + stem).to_owned();
    assert(out@ =~= p@.take(s + stem));
    out.append(".");
    out.append(ext);
    out
}

/// What says nothing is cut from the end alone.
proof fn lemma_bare_is_front(how: Reading, t: Seq<char>)
    ensures
        bare(how, t).len() <= t.len(),
        bare(how, t) == t.take(bare(how, t).len() as int),
    decreases t.len(),
{
    if t.len() > 0 && (divides(how, t.last()) || (how != Reading::Verbatim && t.len() > 1 && t.last()
        == '.' && divides(how, t[t.len() - 2]))) {
        lemma_bare_is_front(how, t.drop_last());
        let n = bare(how, t).len() as int;
        assert(t.drop_last().take(n) =~= t.take(n));
    } else {
        assert(t.take(t.len() as int) =~= t);
    }
}

/// A path without what says nothing at its end has no more of it.
pub proof fn lemma_bare_is_bare(how: Reading, t: Seq<char>)
    ensures
        bare(how, bare(how, t)) == bare(how, t),
    decreases t.len(),
{
    if t.len() > 0 && (divides(how, t.last()) || (how != Reading::Verbatim && t.len() > 1 && t.last()
        == '.' && divides(how, t[t.len() - 2]))) {
        lemma_bare_is_bare(how, t.drop_last());
    }
}

proof fn lemma_last_dot_lies_inside(name: Seq<char>)
    ensures
        last_dot(name) < name.len(),
    decreases name.len(),
{
    if name.len() > 0 && name.last() != '.' {
        lemma_last_dot_lies_inside(name.drop_last());
    }
}

proof fn lemma_name_start_fits(how: Reading, t: Seq<char>)
    ensures
        0 <= name_start(how, t) <= t.len(),
    decreases t.len(),
{
    if t.len() > 0 && !divides(how, t.last()) {
        lemma_name_start_fits(how, t.drop_last());
    }
}

/// The path with another extension.
pub fn with_extension(style: PathStyle, p: &str, ext: &str) -> (r: String)
    ensures
        r@ == with_ext(style, p@, ext@),
{
    match extension(style, p) {
        Some(e) => {
            let n: usize = p.unicode_len();
            let m: usize = e.unicode_len();
            proof {
                let how = reading(style, p@);
                let t = bare(how, body(style, p@));
                lemma_head_fits(style, p@);
                lemma_bare_is_front(how, body(style, p@));
                lemma_name_start_fits(how, t);
                lemma_last_dot_lies_inside(file_name_of(style, p@)->0);
            }
            let cut = p.substring_char(0, n - m);
            assert(cut@ =~= p@.take(p@.len() - e@.len()));
            extend(style, cut, ext)
        },
        None => extend(style, p, ext),
    }
}

// ------------------------------------------------------------------ native paths

/// `std::path::PathBuf`, a path as the system holds it. It need not be text.
#[verifier::external_type_specification]
#[verifier::external_body]
pub struct ExPathBuf(std::path::PathBuf);

/// The path that `PathBuf::from` makes of text.
pub uninterp spec fn native_path(text: Seq<char>) -> std::path::PathBuf;

/// The path that `Path::join` makes of a path and text.
pub uninterp spec fn native_joined(base: std::path::PathBuf, part: Seq<char>) -> std::path::PathBuf;

/// Whether two paths are equal by `==`, which takes them component by component.
pub uninterp spec fn same_place(a: std::path::PathBuf, b: std::path::PathBuf) -> bool;

/// `PathBuf::from` on text: which path it is depends on the text alone.
#[verifier::external_body]
pub(crate) fn path_from(text: String) -> (r: std::path::PathBuf)
    ensures
        r == native_path(text@),
{
    std::path::PathBuf::from(text)
}

/// `Path::join`: which path it is depends on the path and the text alone.
#[verifier::external_body]
pub(crate) fn join_native(base: &std::path::PathBuf, part: &str) -> (r: std::path::PathBuf)
    ensures
        r == native_joined(*base, part@),
{
    base.join(part)
}

/// `==` on two paths: whether they are equal depends on the paths alone.
#[verifier::external_body]
pub(crate) fn is_same_place(a: &std::path::PathBuf, b: &std::path::PathBuf) -> (r: bool)
    ensures
        r == same_place(*a, *b),
{
    a == b
}

// ------------------------------------------------------------ names under paths

pub open spec fn no_slash(s: Seq<char>) -> bool {
    forall|i: int| 0 <= i < s.len() ==> #[trigger] s[i] != '/'
}

/// The last component holds no separator.
pub proof fn lemma_name_has_no_slash(t: Seq<char>)
    ensures
        0 <= name_start(Reading::Unix, t) <= t.len(),
        no_slash(t.skip(name_start(Reading::Unix, t))),
    decreases t.len(),
{
    if t.len() > 0 && t.last() != '/' {
        let u = t.drop_last();
        lemma_name_has_no_slash(u);
        let k = name_start(Reading::Unix, t);
        assert forall|i: int| 0 <= i < t.skip(k).len() implies #[trigger] t.skip(k)[i] != '/' by {
            if i < u.skip(k).len() {
                assert(u.skip(k)[i] != '/');
            }
        }
    }
}

proof fn lemma_name_start_of_child(base: Seq<char>, name: Seq<char>)
    requires
        no_slash(name),
    ensures
        name_start(Reading::Unix, base.push('/') + name) == base.len() + 1,
    decreases name.len(),
{
    let q = base.push('/') + name;
    if name.len() > 0 {
        assert(q.drop_last() =~= base.push('/') + name.drop_last());
        assert(q.last() == name[name.len() - 1]);
        assert forall|i: int| 0 <= i < name.drop_last().len() implies #[trigger] name.drop_last()[i]
            != '/' by {
            assert(name[i] != '/');
        }
        lemma_name_start_of_child(base, name.drop_last());
    } else {
        assert(q =~= base.push('/'));
    }
}

/// On Unix, a name under a path is its last component, and the path its parent.
pub proof fn lemma_child(base: Seq<char>, name: Seq<char>)
    requires
        bare(Reading::Unix, base).len() > 0,
        no_slash(name),
        name.len() > 0,
        name != "."@,
    ensures
        parent_of(PathStyle::Unix, base.push('/') + name) == Some(bare(Reading::Unix, base)),
        name != ".."@ ==> file_name_of(PathStyle::Unix, base.push('/') + name) == Some(name),
{
    let how = Reading::Unix;
    let q = base.push('/') + name;
    reveal_strlit(".");
    reveal_strlit("..");
    assert(name[name.len() - 1] != '/');
    assert(q.last() == name[name.len() - 1]);
    assert(bare(how, q) == q) by {
        if name.len() == 1 {
            if name[0] == '.' {
                assert(name =~= "."@);
            }
        } else {
            assert(name[name.len() - 2] != '/');
            assert(q[q.len() - 2] == name[name.len() - 2]);
        }
    }
    assert(body(PathStyle::Unix, q) =~= q);
    lemma_name_start_of_child(base, name);
    assert(q.skip(base.len() as int + 1) =~= name);
    assert(q.take(base.len() as int + 1) =~= base.push('/'));
    assert(base.push('/').drop_last() =~= base);
    lemma_bare_is_front(how, base);
    let n = bare(how, base).len() as int;
    assert(q.take(n) =~= base.take(n));
}

// ------------------------------------------------------------------------ laws

/// On Unix a part goes behind one slash, which is added where the path has none
/// at its end; a part that starts with one stands alone, and under nothing a
/// part is itself.
pub proof fn unix_parts_go_behind_one_slash(base: Seq<char>, part: Seq<char>)
    ensures
        part.len() > 0 && part[0] == '/' ==> joined(PathStyle::Unix, base, part) == part,
        (part.len() == 0 || part[0] != '/') && base.len() > 0 && base.last() != '/' ==> joined(
            PathStyle::Unix,
            base,
            part,
        ) == base + seq!['/'] + part,
        (part.len() == 0 || part[0] != '/') && base.len() > 0 && base.last() == '/' ==> joined(
            PathStyle::Unix,
            base,
            part,
        ) == base + part,
        joined(PathStyle::Unix, seq![], part) == part,
{
    assert(body(PathStyle::Unix, part) =~= part);
    let none = Seq::<char>::empty();
    assert(base.take(0) + part =~= part);
    assert(none + part =~= part);
    assert(none.take(0) + part =~= part);
    assert(base.push('/') + part =~= base + seq!['/'] + part);
}

/// On Windows a part without a head or a root goes behind one separator, which
/// is added where the path has none at its end; a part with a drive stands
/// alone. The path is not one that is taken verbatim, nor a bare drive.
pub proof fn windows_parts_go_behind_one_separator(base: Seq<char>, part: Seq<char>)
    requires
        !is_verbatim(PathStyle::Windows, base),
        !(base.len() == 2 && has_drive(base)),
    ensures
        has_drive(part) ==> joined(PathStyle::Windows, base, part) == part,
        part.len() > 0 && part[0] != '/' && part[0] != '\\' && !has_drive(part) && base.len() > 0
            && base.last() != '/' && base.last() != '\\' ==> joined(PathStyle::Windows, base, part)
            == base + seq!['\\'] + part,
        part.len() > 0 && part[0] != '/' && part[0] != '\\' && !has_drive(part) && base.len() > 0 && (
        base.last() == '/' || base.last() == '\\') ==> joined(PathStyle::Windows, base, part) == base
            + part,
{
    if part.len() > 0 && part[0] != '/' && part[0] != '\\' && !has_drive(part) {
        assert(head_len(PathStyle::Windows, part) == 0);
        assert(body(PathStyle::Windows, part) =~= part);
        assert(base.push('\\') + part =~= base + seq!['\\'] + part);
    }
}

/// A drive is a letter and a colon, and only Windows has any.
pub proof fn drives_are_letters(p: Seq<char>)
    ensures
        head_len(PathStyle::Unix, p) == 0,
        p.len() >= 2 && p[1] == ':' && (65 <= p[0] as u32 <= 90 || 97 <= p[0] as u32 <= 122)
            ==> head_len(PathStyle::Windows, p) == 2,
        p.len() >= 1 && p[0] != '\\' && p[0] != '/' && !(p.len() >= 2 && p[1] == ':') ==> head_len(
            PathStyle::Windows,
            p,
        ) == 0,
{
}

proof fn lemma_piece_of(how: Reading, piece: Seq<char>, rest: Seq<char>)
    requires
        forall|i: int| 0 <= i < piece.len() ==> !divides(how, #[trigger] piece[i]),
        rest.len() == 0 || divides(how, rest[0]),
    ensures
        piece_len(how, piece + rest) == piece.len(),
    decreases piece.len(),
{
    let all = piece + rest;
    if piece.len() > 0 {
        let less = piece.drop_first();
        assert(all[0] == piece[0]);
        assert forall|i: int| 0 <= i < less.len() implies !divides(how, #[trigger] less[i]) by {
            assert(!divides(how, piece[i + 1]));
        }
        lemma_piece_of(how, less, rest);
        assert(all.drop_first() =~= less + rest);
    } else if rest.len() > 0 {
        assert(all[0] == rest[0]);
    }
}

/// A share is a server and a name behind two separators.
pub proof fn shares_are_heads(server: Seq<char>, name: Seq<char>, rest: Seq<char>)
    requires
        server.len() > 0,
        name.len() > 0,
        server != "?"@,
        server != "."@,
        forall|i: int| 0 <= i < server.len() ==> !divides(Reading::Windows, #[trigger] server[i]),
        forall|i: int| 0 <= i < name.len() ==> !divides(Reading::Windows, #[trigger] name[i]),
        rest.len() == 0 || divides(Reading::Windows, rest[0]),
    ensures
        head_len(PathStyle::Windows, seq!['\\', '\\'] + server + seq!['\\'] + name + rest) == 3
            + server.len() + name.len(),
{
    reveal_strlit("?");
    reveal_strlit(".");
    let p = seq!['\\', '\\'] + server + seq!['\\'] + name + rest;
    let q = p.skip(2);
    let tail = seq!['\\'] + name + rest;
    assert(q =~= server + tail);
    lemma_piece_of(Reading::Windows, server, tail);
    let n = server.len() as int;
    assert(q.skip(n + 1) =~= name + rest);
    lemma_piece_of(Reading::Windows, name, rest);
    assert(p[0] == '\\' && p[1] == '\\');
    assert(p[2] == server[0]);
    if server.len() == 1 {
        if server[0] == '?' {
            assert(server =~= "?"@);
        }
        if server[0] == '.' {
            assert(server =~= "."@);
        }
    } else {
        assert(p[3] == server[1]);
        assert(!divides(Reading::Windows, server[1]));
    }
}

proof fn lemma_last_dot_of(stem: Seq<char>, ext: Seq<char>)
    requires
        forall|i: int| 0 <= i < ext.len() ==> #[trigger] ext[i] != '.',
    ensures
        last_dot(stem + seq!['.'] + ext) == stem.len(),
    decreases ext.len(),
{
    let all = stem + seq!['.'] + ext;
    if ext.len() > 0 {
        assert(all.last() == ext[ext.len() - 1]);
        assert(all.drop_last() =~= stem + seq!['.'] + ext.drop_last());
        assert forall|i: int| 0 <= i < ext.drop_last().len() implies #[trigger] ext.drop_last()[i]
            != '.' by {
            assert(ext[i] != '.');
        }
        lemma_last_dot_of(stem, ext.drop_last());
    } else {
        assert(all.last() == '.');
    }
}

/// The extension of a file is what follows the last dot of its name.
pub proof fn extensions_follow_the_last_dot(base: Seq<char>, stem: Seq<char>, ext: Seq<char>)
    requires
        bare(Reading::Unix, base).len() > 0,
        stem.len() > 0,
        stem != "."@ || ext.len() > 0,
        no_slash(stem),
        no_slash(ext),
        forall|i: int| 0 <= i < ext.len() ==> #[trigger] ext[i] != '.',
    ensures
        extension_of(PathStyle::Unix, base.push('/') + (stem + seq!['.'] + ext)) == Some(ext),
{
    reveal_strlit(".");
    reveal_strlit("..");
    let name = stem + seq!['.'] + ext;
    lemma_last_dot_of(stem, ext);
    assert forall|i: int| 0 <= i < name.len() implies #[trigger] name[i] != '/' by {
        if i < stem.len() {
            assert(stem[i] != '/');
        } else if i > stem.len() {
            assert(ext[i - stem.len() - 1] != '/');
        }
    }
    if name == ".."@ {
        assert(stem =~= "."@);
    }
    lemma_child(base, name);
    assert(name.skip(stem.len() as int + 1) =~= ext);
}

proof fn lemma_name_with_dot(base: Seq<char>, stem: Seq<char>)
    requires
        bare(Reading::Unix, base).len() > 0,
        stem.len() > 0,
        stem != "."@,
        no_slash(stem),
    ensures
        file_name_of(PathStyle::Unix, base.push('/') + stem.push('.')) == Some(stem.push('.')),
        last_dot(stem.push('.')) == stem.len(),
        name_start(Reading::Unix, base.push('/') + stem.push('.')) == base.len() + 1,
{
    reveal_strlit(".");
    reveal_strlit("..");
    let name = stem.push('.');
    assert forall|i: int| 0 <= i < name.len() implies #[trigger] name[i] != '/' by {
        if i < stem.len() {
            assert(stem[i] != '/');
        }
    }
    if name == ".."@ {
        assert(name.len() == stem.len() + 1 && ".."@.len() == 2);
        assert(name[0] == stem[0] && ".."@[0] == '.');
        assert(stem =~= "."@);
    }
    lemma_child(base, name);
    lemma_name_start_of_child(base, name);
}

proof fn lemma_extended_stem(base: Seq<char>, stem: Seq<char>, other: Seq<char>)
    requires
        bare(Reading::Unix, base).len() > 0,
        stem.len() > 0,
        stem != "."@,
        no_slash(stem),
    ensures
        extended(PathStyle::Unix, base.push('/') + stem.push('.'), other) == base.push('/') + stem
            + "."@ + other,
{
    let p = base.push('/') + stem.push('.');
    lemma_name_with_dot(base, stem);
    assert(body(PathStyle::Unix, p) =~= p);
    assert(p.last() == '.' && p[p.len() - 2] == stem[stem.len() - 1]);
    assert(bare(Reading::Unix, p) == p);
    assert(p.take(base.len() + 1 + stem.len() as int) =~= base.push('/') + stem);
}

/// To change the extension of a file changes that and nothing else.
pub proof fn extensions_are_replaced(
    base: Seq<char>,
    stem: Seq<char>,
    ext: Seq<char>,
    other: Seq<char>,
)
    requires
        bare(Reading::Unix, base).len() > 0,
        stem.len() > 0,
        stem != "."@,
        no_slash(stem),
        no_slash(ext),
        forall|i: int| 0 <= i < ext.len() ==> #[trigger] ext[i] != '.',
    ensures
        with_ext(PathStyle::Unix, base.push('/') + (stem + seq!['.'] + ext), other) == base.push('/')
            + stem + "."@ + other,
{
    let p = base.push('/') + (stem + seq!['.'] + ext);
    extensions_follow_the_last_dot(base, stem, ext);
    assert(p.take(p.len() - ext.len()) =~= base.push('/') + stem.push('.'));
    lemma_extended_stem(base, stem, other);
}

/// To change the name of a file changes that and nothing else, but for what says
/// nothing at the end of its directory.
pub proof fn names_are_replaced(base: Seq<char>, name: Seq<char>, other: Seq<char>)
    requires
        bare(Reading::Unix, base).len() > 0,
        no_slash(name),
        name.len() > 0,
        name != "."@,
        name != ".."@,
    ensures
        with_name(PathStyle::Unix, base.push('/') + name, other) == joined(
            PathStyle::Unix,
            bare(Reading::Unix, base),
            other,
        ),
{
    lemma_child(base, name);
}

/// A separator at the end of a path says nothing.
pub proof fn ends_say_nothing(t: Seq<char>)
    ensures
        bare(Reading::Unix, t.push('/')) == bare(Reading::Unix, t),
        bare(Reading::Windows, t.push('\\')) == bare(Reading::Windows, t),
        bare(Reading::Windows, t.push('/')) == bare(Reading::Windows, t),
        bare(Reading::Verbatim, t.push('\\')) == bare(Reading::Verbatim, t),
{
    assert(t.push('/').drop_last() =~= t);
    assert(t.push('\\').drop_last() =~= t);
}

/// Components are followed one after the other, and a step up takes back the
/// name before it.
pub proof fn steps_up_take_back_names(
    have: Seq<Seq<char>>,
    a: Seq<Seq<char>>,
    b: Seq<Seq<char>>,
    name: Seq<char>,
)
    ensures
        climbed(have, a + b) == climbed(climbed(have, a), b),
        name != "."@ && name != ".."@ ==> climbed(have, seq![name, ".."@]) == have,
        name != ".."@ ==> climbed(have, seq![name]) == have.push(name),
        climbed(seq![], seq![".."@]).len() == 0,
    decreases a.len(),
{
    let up = ".."@;
    reveal_with_fuel(climbed, 3);
    assert(seq![name].drop_first() =~= Seq::<Seq<char>>::empty());
    assert(seq![up].drop_first() =~= Seq::<Seq<char>>::empty());
    assert(seq![name, up].drop_first() =~= seq![up]);
    assert(have.push(name).drop_last() =~= have);
    assert(seq![up][0] == up && seq![name, up][0] == name && seq![name][0] == name);
    if a.len() > 0 {
        assert((a + b)[0] == a[0]);
        assert((a + b).drop_first() =~= a.drop_first() + b);
        if a[0] == up {
            if have.len() > 0 && have.last() != "."@ && have.last() != up {
                steps_up_take_back_names(have.drop_last(), a.drop_first(), b, name);
            } else {
                steps_up_take_back_names(have, a.drop_first(), b, name);
            }
        } else {
            steps_up_take_back_names(have.push(a[0]), a.drop_first(), b, name);
        }
    } else {
        assert(a + b =~= b);
    }
}

proof fn lemma_name_start_of_name(name: Seq<char>)
    requires
        no_slash(name),
    ensures
        name_start(Reading::Unix, name) == 0,
    decreases name.len(),
{
    if name.len() > 0 {
        assert(name[name.len() - 1] != '/');
        assert forall|i: int| 0 <= i < name.drop_last().len() implies #[trigger] name.drop_last()[i]
            != '/' by {
            assert(name[i] != '/');
        }
        lemma_name_start_of_name(name.drop_last());
    }
}

/// On Unix a name by itself is its own file name, and what follows its last dot
/// its extension, unless it starts there.
pub proof fn names_stand_by_themselves(stem: Seq<char>, ext: Seq<char>)
    requires
        stem.len() > 0,
        ext.len() > 0,
        no_slash(stem),
        no_slash(ext),
        forall|i: int| 0 <= i < ext.len() ==> #[trigger] ext[i] != '.',
    ensures
        file_name_of(PathStyle::Unix, stem + seq!['.'] + ext) == Some(stem + seq!['.'] + ext),
        extension_of(PathStyle::Unix, stem + seq!['.'] + ext) == Some(ext),
{
    reveal_strlit(".");
    reveal_strlit("..");
    let name = stem + seq!['.'] + ext;
    assert forall|i: int| 0 <= i < name.len() implies #[trigger] name[i] != '/' by {
        if i < stem.len() {
            assert(stem[i] != '/');
        } else if i > stem.len() {
            assert(ext[i - stem.len() - 1] != '/');
        }
    }
    assert(body(PathStyle::Unix, name) =~= name);
    assert(name.last() == ext[ext.len() - 1]);
    assert(name[name.len() - 1] != '/');
    assert(bare(Reading::Unix, name) == name);
    lemma_name_start_of_name(name);
    assert(name.skip(0) =~= name);
    assert(name.len() >= 3);
    lemma_last_dot_of(stem, ext);
    assert(name.skip(stem.len() as int + 1) =~= ext);
}

/// On Unix the parent of what lies in the root is the root, and the root has
/// none.
pub proof fn the_root_is_a_parent(name: Seq<char>)
    requires
        no_slash(name),
        name.len() > 0,
        name != "."@,
    ensures
        parent_of(PathStyle::Unix, seq!['/'] + name) == Some(seq!['/']),
        parent_of(PathStyle::Unix, seq!['/']) is None,
        parent_of(PathStyle::Unix, seq![]) is None,
{
    reveal_strlit(".");
    let how = Reading::Unix;
    let none = Seq::<char>::empty();
    let root = seq!['/'];
    let q = root + name;
    assert(none.push('/') =~= root);
    assert(body(PathStyle::Unix, q) =~= q);
    assert(body(PathStyle::Unix, root) =~= root);
    assert(body(PathStyle::Unix, none) =~= none);
    assert(root.drop_last() =~= none);
    assert(bare(how, none) == none);
    assert(bare(how, root) == none);
    assert(name[name.len() - 1] != '/');
    assert(q.last() == name[name.len() - 1]);
    assert(bare(how, q) == q) by {
        if name.len() == 1 {
            if name[0] == '.' {
                assert(name =~= "."@);
            }
        } else {
            assert(name[name.len() - 2] != '/');
            assert(q[q.len() - 2] == name[name.len() - 2]);
        }
    }
    lemma_name_start_of_child(none, name);
    assert(q.take(1) =~= root);
}

} // verus!
