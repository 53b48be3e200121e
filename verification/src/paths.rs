//! Paths on the calculator, read as Unix paths: a root `/` or a leading
//! `.`, then pieces between `/`s, where empty pieces and `.` name nothing.
use vstd::prelude::*;

use crate::text::{chars_of, concat, same_text};

verus! {

/// The path of the entry `name` inside directory `dir`.
pub open spec fn child_path_of(dir: Seq<char>, name: Seq<char>) -> Seq<char> {
    if dir == seq!['/'] {
        seq!['/'] + name
    } else {
        dir + seq!['/'] + name
    }
}

/// Index of the last occurrence of `c` in `s`, or -1 where there is none.
pub open spec fn last_index_of(s: Seq<char>, c: char) -> int
    decreases s.len(),
{
    if s.len() == 0 {
        -1
    } else if s.last() == c {
        s.len() - 1
    } else {
        last_index_of(s.drop_last(), c)
    }
}

pub proof fn lemma_last_index_of_bounds(s: Seq<char>, c: char)
    ensures
        -1 <= last_index_of(s, c) < s.len(),
        last_index_of(s, c) >= 0 ==> s[last_index_of(s, c)] == c,
        forall|j: int| last_index_of(s, c) < j < s.len() ==> s[j] != c,
    decreases s.len(),
{
    if s.len() > 0 && s.last() != c {
        lemma_last_index_of_bounds(s.drop_last(), c);
        let t = s.drop_last();
        assert forall|j: int| last_index_of(s, c) < j < s.len() implies s[j] != c by {
            if j < t.len() {
                assert(t[j] == s[j]);
            }
        }
    }
}

/// The path of the entry `name` inside directory `dir`.
pub fn child_path(dir: &str, name: &str) -> (r: String)
    ensures
        r@ == child_path_of(dir@, name@),
{
    let slash = "/";
    proof {
        reveal_strlit("/");
        assert(slash@ =~= seq!['/']);
    }
    if same_text(dir, slash) {
        concat(slash, name)
    } else {
        let mut r = concat(dir, slash);
        r.append(name);
        r
    }
}

/// How much of `p` comes before its first piece: its root `/`, or the `.`
/// that begins a relative path (`.` alone, or followed by `/`); else nothing.
pub open spec fn head_len(p: Seq<char>) -> int {
    if p.len() > 0 && (p[0] == '/' || (p[0] == '.' && (p.len() == 1 || p[1] == '/'))) {
        1
    } else {
        0
    }
}

/// Where the last piece of `p.take(n)` begins: just after its last `/`
/// at or after `h`, or at `h` where there is none.
pub open spec fn piece_start(p: Seq<char>, h: int, n: int) -> int
    decreases n - h,
{
    if n <= h {
        h
    } else if p[n - 1] == '/' {
        n
    } else {
        piece_start(p, h, n - 1)
    }
}

pub proof fn lemma_piece_start_bounds(p: Seq<char>, h: int, n: int)
    requires
        h <= n,
    ensures
        h <= piece_start(p, h, n) <= n,
        piece_start(p, h, n) > h ==> p[piece_start(p, h, n) - 1] == '/',
        forall|j: int| piece_start(p, h, n) <= j < n ==> p[j] != '/',
    decreases n - h,
{
    if n > h && p[n - 1] != '/' {
        lemma_piece_start_bounds(p, h, n - 1);
    }
}

/// Where `p.take(n)` ends once its last piece, and the `/` before it, are
/// cut off (never before `h`).
pub open spec fn cut_end(p: Seq<char>, h: int, n: int) -> int {
    let s = piece_start(p, h, n);
    if s > h {
        s - 1
    } else {
        h
    }
}

/// A piece that names nothing: an empty one (from a doubled or a final
/// `/`), or `.`.
pub open spec fn is_filler(piece: Seq<char>) -> bool {
    piece.len() == 0 || piece == seq!['.']
}

/// Where `p.take(n)` ends once the pieces at its end that name nothing are
/// cut off (never before `h`).
pub open spec fn trimmed_end(p: Seq<char>, h: int, n: int) -> int
    decreases n - h,
{
    if n <= h {
        n
    } else if is_filler(p.subrange(piece_start(p, h, n), n)) {
        proof {
            lemma_piece_start_bounds(p, h, n);
        }
        trimmed_end(p, h, cut_end(p, h, n))
    } else {
        n
    }
}

/// The parent of `p` as a Unix path: `p` without its last component, and
/// without the `/` and the pieces naming nothing before it. A last
/// component that is `.` at the start of a relative path leaves the empty
/// path. There is none where `p` is empty or ends in its root.
pub open spec fn parent_of(p: Seq<char>) -> Option<Seq<char>> {
    let h = head_len(p);
    let n = trimmed_end(p, h, p.len() as int);
    if n > h {
        Some(p.take(trimmed_end(p, h, cut_end(p, h, n))))
    } else if h == 1 && p[0] == '.' {
        Some(Seq::empty())
    } else {
        None
    }
}

/// The directory that "up" leads to from `p`: its parent, where the empty
/// path stands for the root; none from the root itself.
pub open spec fn up_path_of(p: Seq<char>) -> Option<Seq<char>> {
    if p == seq!['/'] {
        None
    } else {
        match parent_of(p) {
            Some(q) => Some(
                if q.len() == 0 {
                    seq!['/']
                } else {
                    q
                },
            ),
            None => None,
        }
    }
}

/// The file name of `p`: its last component, where that is a name (not
/// the root, `.` or `..`).
pub open spec fn file_name_of(p: Seq<char>) -> Option<Seq<char>> {
    let h = head_len(p);
    let n = trimmed_end(p, h, p.len() as int);
    let piece = p.subrange(piece_start(p, h, n), n);
    if n > h && piece != seq!['.', '.'] {
        Some(piece)
    } else {
        None
    }
}

/// The extension of `p`: what follows the last `.` of its file name, where
/// that dot is not the name's first character.
pub open spec fn extension_of(p: Seq<char>) -> Option<Seq<char>> {
    match file_name_of(p) {
        Some(f) => {
            let k = last_index_of(f, '.');
            if k <= 0 {
                None
            } else {
                Some(f.skip(k + 1))
            }
        },
        None => None,
    }
}

/// The extension of `name` (see `extension_of`).
pub fn extension(name: &str) -> (r: Option<String>)
    ensures
        match extension_of(name@) {
            Some(e) => r matches Some(x) && x@ == e,
            None => r is None,
        },
{
    let cs = chars_of(name);
    let h = head_len_exec(&cs);
    let n = trimmed_end_exec(&cs, h, cs.len());
    if n == h {
        return None;
    }
    let s = piece_start_exec(&cs, h, n);
    let ghost f = cs@.subrange(s as int, n as int);
    if n - s == 2 && cs[s] == '.' && cs[s + 1] == '.' {
        assert(f =~= seq!['.', '.']);
        return None;
    }
    assert(f != seq!['.', '.']) by {
        if f == seq!['.', '.'] {
            assert(f.len() == 2 && f.len() == n - s);
            assert(f[0] == cs@[s as int]);
            assert(f[1] == cs@[s + 1]);
        }
    };
    let mut i: usize = n;
    assert(f.take(f.len() as int) =~= f);
    while i > s && cs[i - 1] != '.'
        invariant
            s <= i <= n <= cs@.len(),
            f == cs@.subrange(s as int, n as int),
            last_index_of(f, '.') == last_index_of(f.take(i - s), '.'),
        decreases i,
    {
        proof {
            let t = f.take(i - s);
            assert(t.last() == cs@[i - 1]);
            assert(t.drop_last() =~= f.take(i - 1 - s));
        }
        i = i - 1;
    }
    if i - s <= 1 {
        proof {
            if i == s + 1 {
                assert(f.take(1).last() == f[0]);
                assert(f[0] == cs@[s as int]);
            }
        }
        None
    } else {
        assert(f.take(i - s).last() == cs@[i - 1]);
        assert(f.skip(i - s) =~= cs@.subrange(i as int, n as int));
        let sub = name.substring_char(i, n);
        Some(String::from_str(sub))
    }
}

/// A component of a path, as a kind and a text: the root (0), the `.` that
/// begins a relative path (1), `..` (2), or a name (3) with its text; the
/// text is empty for the other kinds.
pub open spec fn part_of(piece: Seq<char>) -> (int, Seq<char>) {
    if piece == seq!['.', '.'] {
        (2, Seq::empty())
    } else {
        (3, piece)
    }
}

/// The components of `p.take(n)` after its head `h`, front to back: one
/// for each piece between the `/`s that names something.
pub open spec fn body_parts(p: Seq<char>, h: int, n: int) -> Seq<(int, Seq<char>)>
    decreases n - h,
{
    if n <= h {
        Seq::empty()
    } else {
        proof {
            lemma_piece_start_bounds(p, h, n);
        }
        let piece = p.subrange(piece_start(p, h, n), n);
        let rest = body_parts(p, h, cut_end(p, h, n));
        if is_filler(piece) {
            rest
        } else {
            rest.push(part_of(piece))
        }
    }
}

/// The components of `p` as a Unix path, front to back.
pub open spec fn components_of(p: Seq<char>) -> Seq<(int, Seq<char>)> {
    let h = head_len(p);
    let head: Seq<(int, Seq<char>)> = if h == 0 {
        Seq::empty()
    } else if p[0] == '/' {
        seq![(0int, Seq::<char>::empty())]
    } else {
        seq![(1int, Seq::<char>::empty())]
    };
    head + body_parts(p, h, p.len() as int)
}

/// The components of a path, each as a kind and its text (see `part_of`).
pub open spec fn parts_view(v: Seq<(u8, Vec<char>)>) -> Seq<(int, Seq<char>)> {
    v.map_values(|x: (u8, Vec<char>)| (x.0 as int, x.1@))
}

fn head_len_exec(cs: &Vec<char>) -> (h: usize)
    ensures
        h == head_len(cs@),
{
    if cs.len() > 0 && (cs[0] == '/' || (cs[0] == '.' && (cs.len() == 1 || cs[1] == '/'))) {
        1
    } else {
        0
    }
}

fn piece_start_exec(cs: &Vec<char>, h: usize, n: usize) -> (s: usize)
    requires
        h <= n <= cs@.len(),
    ensures
        s == piece_start(cs@, h as int, n as int),
        h <= s <= n,
{
    proof {
        lemma_piece_start_bounds(cs@, h as int, n as int);
    }
    let mut j = n;
    while j > h && cs[j - 1] != '/'
        invariant
            h <= j <= n <= cs@.len(),
            piece_start(cs@, h as int, n as int) == piece_start(cs@, h as int, j as int),
        decreases j,
    {
        j = j - 1;
    }
    j
}

fn cut_end_exec(cs: &Vec<char>, h: usize, n: usize) -> (c: usize)
    requires
        h < n <= cs@.len(),
    ensures
        c == cut_end(cs@, h as int, n as int),
        h <= c < n,
{
    let s = piece_start_exec(cs, h, n);
    if s > h {
        s - 1
    } else {
        h
    }
}

fn is_filler_exec(cs: &Vec<char>, s: usize, n: usize) -> (r: bool)
    requires
        s <= n <= cs@.len(),
    ensures
        r == is_filler(cs@.subrange(s as int, n as int)),
{
    let piece = Ghost(cs@.subrange(s as int, n as int));
    if s == n {
        true
    } else if n - s == 1 && cs[s] == '.' {
        assert(piece@ =~= seq!['.']);
        true
    } else {
        assert(piece@.len() == 1 ==> piece@[0] == cs@[s as int]);
        false
    }
}

fn trimmed_end_exec(cs: &Vec<char>, h: usize, n: usize) -> (t: usize)
    requires
        h <= n <= cs@.len(),
    ensures
        t == trimmed_end(cs@, h as int, n as int),
        h <= t <= n,
{
    let mut m = n;
    while m > h && is_filler_exec(cs, piece_start_exec(cs, h, m), m)
        invariant
            h <= m <= n <= cs@.len(),
            trimmed_end(cs@, h as int, n as int) == trimmed_end(cs@, h as int, m as int),
        decreases m,
    {
        m = cut_end_exec(cs, h, m);
    }
    m
}

/// Where "up" leads from `p` (see `up_path_of`).
pub fn up_path(p: &str) -> (r: Option<String>)
    ensures
        match up_path_of(p@) {
            Some(q) => r matches Some(s) && s@ == q,
            None => r is None,
        },
{
    let slash = "/";
    proof {
        reveal_strlit("/");
        assert(slash@ =~= seq!['/']);
    }
    if same_text(p, slash) {
        return None;
    }
    let cs = chars_of(p);
    let h = head_len_exec(&cs);
    let n = trimmed_end_exec(&cs, h, cs.len());
    if n > h {
        let c = cut_end_exec(&cs, h, n);
        let m = trimmed_end_exec(&cs, h, c);
        if m == 0 {
            Some(String::from_str(slash))
        } else {
            let sub = p.substring_char(0, m);
            Some(String::from_str(sub))
        }
    } else if h == 1 && cs[0] == '.' {
        Some(String::from_str(slash))
    } else {
        None
    }
}

fn chars_between(cs: &Vec<char>, s: usize, e: usize) -> (r: Vec<char>)
    requires
        s <= e <= cs@.len(),
    ensures
        r@ == cs@.subrange(s as int, e as int),
{
    let mut r: Vec<char> = Vec::new();
    let mut i = s;
    while i < e
        invariant
            s <= i <= e <= cs@.len(),
            r@ == cs@.subrange(s as int, i as int),
        decreases e - i,
    {
        r.push(cs[i]);
        assert(r@ =~= cs@.subrange(s as int, i + 1));
        i = i + 1;
    }
    r
}

/// The components of the path `cs`, front to back (see `components_of`).
pub fn components(cs: &Vec<char>) -> (r: Vec<(u8, Vec<char>)>)
    ensures
        parts_view(r@) == components_of(cs@),
{
    let h = head_len_exec(cs);
    let mut parts: Vec<(u8, Vec<char>)> = Vec::new();
    let mut n = cs.len();
    assert(parts_view(parts@) =~= Seq::<(int, Seq<char>)>::empty());
    assert(body_parts(cs@, h as int, n as int) + Seq::<(int, Seq<char>)>::empty() =~= body_parts(
        cs@,
        h as int,
        n as int,
    ));
    while n > h
        invariant
            h == head_len(cs@),
            h <= n <= cs@.len(),
            body_parts(cs@, h as int, cs@.len() as int) == body_parts(cs@, h as int, n as int)
                + parts_view(parts@),
        decreases n,
    {
        let s = piece_start_exec(cs, h, n);
        let c = cut_end_exec(cs, h, n);
        let ghost before = parts@;
        let ghost piece = cs@.subrange(s as int, n as int);
        if !is_filler_exec(cs, s, n) {
            let text = chars_between(cs, s, n);
            let part: (u8, Vec<char>) = if text.len() == 2 && text[0] == '.' && text[1] == '.' {
                assert(piece =~= seq!['.', '.']);
                (2u8, Vec::new())
            } else {
                assert(piece != seq!['.', '.'] ) by {
                    if piece == seq!['.', '.'] {
                        assert(text@[0] == '.' && text@[1] == '.');
                    }
                };
                (3u8, text)
            };
            assert((part.0 as int, part.1@) == part_of(piece)) by {
                if part.0 == 2 {
                    assert(part.1@ =~= Seq::<char>::empty());
                }
            };
            parts.insert(0, part);
            assert(parts_view(parts@) =~= seq![part_of(piece)] + parts_view(before));
            assert(body_parts(cs@, h as int, n as int) == body_parts(cs@, h as int, c as int).push(
                part_of(piece),
            ));
            assert(body_parts(cs@, h as int, c as int).push(part_of(piece)) + parts_view(before)
                =~= body_parts(cs@, h as int, c as int) + parts_view(parts@));
        } else {
            assert(body_parts(cs@, h as int, n as int) == body_parts(cs@, h as int, c as int));
        }
        n = c;
    }
    assert(body_parts(cs@, h as int, h as int) == Seq::<(int, Seq<char>)>::empty());
    assert(Seq::<(int, Seq<char>)>::empty() + parts_view(parts@) =~= parts_view(parts@));
    if h == 1 {
        let ghost before = parts@;
        let kind: u8 = if cs[0] == '/' {
            0
        } else {
            1
        };
        parts.insert(0, (kind, Vec::new()));
        assert(parts_view(parts@) =~= seq![(kind as int, Seq::<char>::empty())] + parts_view(
            before,
        ));
    } else {
        assert(Seq::<(int, Seq<char>)>::empty() + parts_view(parts@) =~= parts_view(parts@));
    }
    parts
}

} // verus!
