//! Unix path components, as `std::path::Path` reads them, and the checks
//! built on them: containment of one path in another, the Markdown
//! extension, and the rule that the data directory stays out of the vault.

use vstd::prelude::*;
use crate::api::debug::split_on;
use crate::text::{chars_of, concat, push_str, string_from_chars, str_eq};

verus! {

/// Whether a piece between separators names nothing (empty or `.`).
pub open spec fn is_skipped(p: Seq<char>) -> bool {
    p.len() == 0 || p == seq!['.']
}

/// The pieces that name something, in order.
pub open spec fn keep_pieces(ps: Seq<Seq<char>>) -> Seq<Seq<char>>
    decreases ps.len(),
{
    if ps.len() == 0 {
        seq![]
    } else {
        keep_pieces(ps.drop_last()) + if is_skipped(ps.last()) {
            seq![]
        } else {
            seq![ps.last()]
        }
    }
}

/// The components of a Unix path: `/` for the root, `.` for a leading
/// current-directory marker of a relative path, then every piece between
/// separators other than empty pieces and `.`.
pub open spec fn components(s: Seq<char>) -> Seq<Seq<char>> {
    if s.len() > 0 && s[0] == '/' {
        seq![seq!['/']] + keep_pieces(split_on(s.skip(1), '/'))
    } else if s.len() > 0 && s[0] == '.' && (s.len() == 1 || s[1] == '/') {
        seq![seq!['.']] + keep_pieces(split_on(s.skip(1), '/'))
    } else {
        keep_pieces(split_on(s, '/'))
    }
}

/// `Path::starts_with`: the components of `base` begin those of `p`.
pub open spec fn starts_with_path(p: Seq<char>, base: Seq<char>) -> bool {
    let a = components(p);
    let b = components(base);
    b.len() <= a.len() && a.take(b.len() as int) == b
}

proof fn lemma_split_on_nonempty(s: Seq<char>, c: char)
    ensures
        split_on(s, c).len() >= 1,
    decreases s.len(),
{
    if s.len() > 0 {
        lemma_split_on_nonempty(s.drop_last(), c);
    }
}

proof fn lemma_keep_push(ps: Seq<Seq<char>>, x: Seq<char>)
    ensures
        keep_pieces(ps.push(x)) == keep_pieces(ps) + if is_skipped(x) {
            seq![]
        } else {
            seq![x]
        },
{
    assert(ps.push(x).drop_last() =~= ps);
}

fn is_skipped_exec(p: &Vec<char>) -> (r: bool)
    ensures
        r == is_skipped(p@),
{
    if p.len() == 0 {
        return true;
    }
    if p.len() == 1 && p[0] == '.' {
        assert(p@ =~= seq!['.']);
        return true;
    }
    false
}

/// The named pieces of `v[from..]`, split at `/`.
fn kept_pieces(v: &Vec<char>, from: usize) -> (out: Vec<Vec<char>>)
    requires
        from <= v@.len(),
    ensures
        out@.map_values(|p: Vec<char>| p@) == keep_pieces(split_on(v@.skip(from as int), '/')),
{
    let ghost t = v@.skip(from as int);
    let mut out: Vec<Vec<char>> = Vec::new();
    let mut cur: Vec<char> = Vec::new();
    let mut i = from;
    proof {
        assert(t.take(0) =~= Seq::<char>::empty());
        assert(out@.map_values(|p: Vec<char>| p@) =~= keep_pieces(seq![]));
    }
    while i < v.len()
        invariant
            from <= i <= v@.len(),
            t == v@.skip(from as int),
            split_on(t.take(i - from), '/').len() >= 1,
            split_on(t.take(i - from), '/').last() == cur@,
            out@.map_values(|p: Vec<char>| p@) == keep_pieces(split_on(t.take(i - from), '/').drop_last()),
        decreases v@.len() - i,
    {
        let ghost prev = t.take(i - from);
        let ghost next = t.take(i - from + 1);
        proof {
            assert(next.drop_last() =~= prev);
            assert(next.last() == v@[i as int]);
            lemma_split_on_nonempty(prev, '/');
        }
        if v[i] == '/' {
            let ghost old_out = out@.map_values(|p: Vec<char>| p@);
            proof {
                lemma_keep_push(split_on(prev, '/').drop_last(), cur@);
                assert(split_on(prev, '/').drop_last().push(cur@) =~= split_on(prev, '/'));
                assert(split_on(next, '/').drop_last() =~= split_on(prev, '/'));
            }
            if !is_skipped_exec(&cur) {
                let c = cur;
                out.push(c);
                proof {
                    assert(out@.map_values(|p: Vec<char>| p@) =~= old_out.push(c@));
                }
            }
            cur = Vec::new();
            proof {
                assert(out@.map_values(|p: Vec<char>| p@) =~= keep_pieces(split_on(next, '/').drop_last()));
            }
        } else {
            let ghost old_cur = cur@;
            cur.push(v[i]);
            proof {
                let sp = split_on(prev, '/');
                assert(split_on(next, '/') == sp.update(sp.len() - 1, old_cur.push(v@[i as int])));
                assert(split_on(next, '/').drop_last() =~= sp.drop_last());
            }
        }
        i += 1;
    }
    proof {
        assert(t.take(i - from) =~= t);
        lemma_split_on_nonempty(t, '/');
        lemma_keep_push(split_on(t, '/').drop_last(), cur@);
        assert(split_on(t, '/').drop_last().push(cur@) =~= split_on(t, '/'));
    }
    let ghost old_out = out@.map_values(|p: Vec<char>| p@);
    if !is_skipped_exec(&cur) {
        out.push(cur);
        proof {
            assert(out@.map_values(|p: Vec<char>| p@) =~= old_out.push(
                split_on(t, '/').last(),
            ));
        }
    } else {
        proof {
            assert(old_out + Seq::<Seq<char>>::empty() =~= old_out);
        }
    }
    out
}

/// The components of a path.
pub fn path_components(s: &str) -> (out: Vec<Vec<char>>)
    ensures
        out@.map_values(|p: Vec<char>| p@) == components(s@),
{
    let v = chars_of(s);
    if v.len() > 0 && v[0] == '/' {
        let rest = kept_pieces(&v, 1);
        let mut out: Vec<Vec<char>> = Vec::new();
        let mut root: Vec<char> = Vec::new();
        root.push('/');
        out.push(root);
        let mut rest = rest;
        let ghost r = rest@.map_values(|p: Vec<char>| p@);
        out.append(&mut rest);
        proof {
            assert(out@.map_values(|p: Vec<char>| p@) =~= seq![seq!['/']] + r);
        }
        return out;
    }
    if v.len() > 0 && v[0] == '.' && (v.len() == 1 || v[1] == '/') {
        let rest = kept_pieces(&v, 1);
        let mut out: Vec<Vec<char>> = Vec::new();
        let mut cur: Vec<char> = Vec::new();
        cur.push('.');
        out.push(cur);
        let mut rest = rest;
        let ghost r = rest@.map_values(|p: Vec<char>| p@);
        out.append(&mut rest);
        proof {
            assert(out@.map_values(|p: Vec<char>| p@) =~= seq![seq!['.']] + r);
        }
        return out;
    }
    let out = kept_pieces(&v, 0);
    proof {
        assert(v@.skip(0) =~= v@);
    }
    out
}

fn chars_eq(a: &Vec<char>, b: &Vec<char>) -> (r: bool)
    ensures
        r == (a@ == b@),
{
    if a.len() != b.len() {
        return false;
    }
    let mut i: usize = 0;
    while i < a.len()
        invariant
            i <= a@.len(),
            a@.len() == b@.len(),
            forall|j: int| 0 <= j < i ==> a@[j] == b@[j],
        decreases a@.len() - i,
    {
        if a[i] != b[i] {
            return false;
        }
        i += 1;
    }
    assert(a@ =~= b@);
    true
}

/// Whether `p` lies in `base`, component by component.
pub fn path_starts_with(p: &str, base: &str) -> (r: bool)
    ensures
        r == starts_with_path(p@, base@),
{
    let a = path_components(p);
    let b = path_components(base);
    let ghost av = a@.map_values(|x: Vec<char>| x@);
    let ghost bv = b@.map_values(|x: Vec<char>| x@);
    assert(av.len() == a@.len() && bv.len() == b@.len());
    assert(av == components(p@) && bv == components(base@));
    if b.len() > a.len() {
        assert(components(base@).len() > components(p@).len());
        return false;
    }
    let mut i: usize = 0;
    while i < b.len()
        invariant
            i <= b@.len() <= a@.len(),
            av == a@.map_values(|x: Vec<char>| x@),
            bv == b@.map_values(|x: Vec<char>| x@),
            av == components(p@),
            bv == components(base@),
            forall|j: int| 0 <= j < i ==> av[j] == bv[j],
        decreases b@.len() - i,
    {
        assert(av[i as int] == a@[i as int]@ && bv[i as int] == b@[i as int]@);
        if !chars_eq(&a[i], &b[i]) {
            assert(av.take(bv.len() as int)[i as int] != bv[i as int]);
            return false;
        }
        i += 1;
    }
    assert(av.take(bv.len() as int) =~= bv);
    true
}

/// The file name of a path: its last component when that names a file or
/// directory (not the root, `.` or `..`).
pub open spec fn file_name(s: Seq<char>) -> Option<Seq<char>> {
    let c = components(s);
    if c.len() > 0 && c.last() != seq!['/'] && c.last() != seq!['.'] && c.last() != seq!['.', '.'] {
        Some(c.last())
    } else {
        None
    }
}

/// Whether a path's extension is `md`: its file name has a dot after its
/// first character, and `md` follows the last dot.
pub open spec fn is_markdown(s: Seq<char>) -> bool {
    match file_name(s) {
        Some(f) => f.len() >= 4 && f.skip(f.len() - 3) == seq!['.', 'm', 'd'],
        None => false,
    }
}

/// `Path::extension() == Some("md")`.
pub fn is_markdown_path(p: &str) -> (r: bool)
    ensures
        r == is_markdown(p@),
{
    let c = path_components(p);
    let ghost cv = c@.map_values(|x: Vec<char>| x@);
    if c.len() == 0 {
        return false;
    }
    let last = &c[c.len() - 1];
    proof {
        assert(cv.last() == last@);
    }
    if last.len() == 1 && (last[0] == '/' || last[0] == '.') {
        proof {
            if last[0] == '/' {
                assert(last@ =~= seq!['/']);
            } else {
                assert(last@ =~= seq!['.']);
            }
        }
        return false;
    }
    if last.len() == 2 && last[0] == '.' && last[1] == '.' {
        assert(last@ =~= seq!['.', '.']);
        return false;
    }
    proof {
        assert(last@ != seq!['/'] && last@ != seq!['.'] && last@ != seq!['.', '.']) by {
            if last@ == seq!['/'] || last@ == seq!['.'] {
                assert(last@.len() == 1);
            }
            if last@ == seq!['.', '.'] {
                assert(last@.len() == 2);
            }
        }
    }
    let n = last.len();
    if n < 4 {
        return false;
    }
    let r = last[n - 3] == '.' && last[n - 2] == 'm' && last[n - 1] == 'd';
    proof {
        let tail = last@.skip(n - 3);
        if r {
            assert(tail =~= seq!['.', 'm', 'd']);
        } else {
            if tail == seq!['.', 'm', 'd'] {
                assert(tail[0] == last@[n - 3]);
                assert(tail[1] == last@[n - 2]);
                assert(tail[2] == last@[n - 1]);
            }
        }
    }
    r
}

/// `Path` equality: the same components.
pub open spec fn same_path(a: Seq<char>, b: Seq<char>) -> bool {
    components(a) == components(b)
}

/// Whether two paths are equal as `Path`s.
pub fn paths_equal(a: &str, b: &str) -> (r: bool)
    ensures
        r == same_path(a@, b@),
{
    let ab = path_starts_with(a, b);
    let ba = path_starts_with(b, a);
    proof {
        let ca = components(a@);
        let cb = components(b@);
        if ab && ba {
            assert(ca.len() == cb.len());
            assert(ca.take(cb.len() as int) =~= ca);
        }
        if same_path(a@, b@) {
            assert(ca.take(cb.len() as int) =~= ca);
        }
    }
    ab && ba
}

/// The configuration check that keeps the index out of the vault: the
/// data directory, resolved as far as it exists, must not lie in the
/// canonical vault.
pub fn check_data_dir_outside_vault(resolved_data_dir: &str, data_dir: &str, canonical_vault: &str) -> (r:
    Result<(), String>)
    ensures
        r is Ok <==> !starts_with_path(resolved_data_dir@, canonical_vault@),
        r matches Err(m) ==> m@ == "storage.data_dir ("@ + data_dir@ + ") must not be under vault ("@
            + canonical_vault@ + "). See ADR-0006."@,
{
    if path_starts_with(resolved_data_dir, canonical_vault) {
        let mut m = concat("storage.data_dir (", data_dir);
        push_str(&mut m, ") must not be under vault (");
        push_str(&mut m, canonical_vault);
        push_str(&mut m, "). See ADR-0006.");
        return Err(m);
    }
    Ok(())
}

/// Every path lies in itself.
pub proof fn law_path_in_itself(p: Seq<char>)
    ensures
        starts_with_path(p, p),
{
    assert(components(p).take(components(p).len() as int) =~= components(p));
}

} // verus!
