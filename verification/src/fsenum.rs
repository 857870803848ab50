//! Enumeration of event-log files over a directory tree: exactly the regular
//! files whose name ends in `.evtx`, in lexicographic order.

use vstd::prelude::*;

use crate::strtext::{ends_with, lex_le};
use vstd::multiset::Multiset;
use crate::value::seg_views;

verus! {

/// A directory tree as handed in by the caller: regular files and
/// directories with their entries. A value of this shape cannot cycle, so
/// traversal needs no visited set.
pub enum FsTree {
    File { name: String },
    Dir { name: String, entries: Vec<FsTree> },
}

/// A child's path under `prefix`.
pub open spec fn node_path(prefix: Seq<char>, name: Seq<char>) -> Seq<char> {
    prefix + seq!['/'] + name
}

/// Every file path in the tree rooted under `prefix`, suffix-filtered or not.
pub open spec fn paths_of(prefix: Seq<char>, t: FsTree) -> Seq<Seq<char>>
    decreases t,
{
    match t {
        FsTree::File { name } => seq![node_path(prefix, name@)],
        FsTree::Dir { name, entries } => paths_of_list(node_path(prefix, name@), entries@),
    }
}

pub open spec fn paths_of_list(prefix: Seq<char>, es: Seq<FsTree>) -> Seq<Seq<char>>
    decreases es,
{
    if es.len() == 0 {
        Seq::empty()
    } else {
        paths_of_list(prefix, es.drop_last()) + paths_of(prefix, es.last())
    }
}

/// The event-log suffix.
pub open spec fn evtx_suffix() -> Seq<char> {
    seq!['.', 'e', 'v', 't', 'x']
}

/// The paths the enumerator owes: the file paths ending in `.evtx`.
pub open spec fn evtx_paths(prefix: Seq<char>, es: Seq<FsTree>) -> Seq<Seq<char>> {
    paths_of_list(prefix, es).filter(|p: Seq<char>| ends_with(p, evtx_suffix()))
}

fn suffix_string() -> (r: String)
    ensures
        r@ == evtx_suffix(),
{
    proof {
        reveal_strlit(".evtx");
    }
    let s: String = String::from_str(".evtx");
    assert(s@ =~= evtx_suffix());
    s
}

fn join_path(prefix: &String, name: &String) -> (r: String)
    ensures
        r@ == node_path(prefix@, name@),
{
    proof {
        reveal_strlit("/");
    }
    let mut out: String = prefix.clone();
    out.append("/");
    out.append(name.as_str());
    assert(out@ =~= node_path(prefix@, name@));
    out
}

/// Lexicographic insertion of a path into a sorted path list.
pub open spec fn insert_lex(x: Seq<char>, s: Seq<Seq<char>>) -> Seq<Seq<char>>
    decreases s.len(),
{
    if s.len() == 0 {
        seq![x]
    } else if lex_le(x, s[0]) {
        seq![x] + s
    } else {
        seq![s[0]] + insert_lex(x, s.skip(1))
    }
}

/// The paths in lexicographic order.
pub open spec fn sort_lex(s: Seq<Seq<char>>) -> Seq<Seq<char>>
    decreases s.len(),
{
    if s.len() == 0 {
        Seq::empty()
    } else {
        insert_lex(s.last(), sort_lex(s.drop_last()))
    }
}

fn insert_path(x: String, v: Vec<String>) -> (r: Vec<String>)
    ensures
        seg_views(r@) == insert_lex(x@, seg_views(v@)),
    decreases v@.len(),
{
    let ghost orig = v@;
    let mut w: Vec<String> = v;
    if w.len() == 0 {
        let mut out: Vec<String> = Vec::new();
        out.push(x);
        proof {
            assert(seg_views(out@) =~= insert_lex(x@, seg_views(orig)));
        }
        out
    } else {
        let first_later: bool = crate::strtext::str_lt(&w[0], &x);
        proof {
            assert(seg_views(orig)[0] == orig[0]@);
            if !crate::strtext::lex_lt(orig[0]@, x@) && !crate::strtext::lex_lt(x@, orig[0]@) {
                crate::strtext::lemma_lex_total(x@, orig[0]@);
            }
            if crate::strtext::lex_lt(x@, orig[0]@) && crate::strtext::lex_lt(orig[0]@, x@) {
                crate::strtext::lemma_lex_trans(x@, orig[0]@, x@);
                crate::strtext::lemma_lex_irrefl(x@);
            }
            if x@ == orig[0]@ {
                crate::strtext::lemma_lex_irrefl(x@);
            }
        }
        if !first_later {
            w.insert(0, x);
            proof {
                assert(w@ =~= seq![w@[0]] + orig);
                assert(seg_views(w@) =~= seq![x@] + seg_views(orig));
                assert(seg_views(w@) =~= insert_lex(x@, seg_views(orig)));
            }
            w
        } else {
            let head: String = w.remove(0);
            proof {
                assert(w@ =~= orig.skip(1));
                assert(seg_views(w@) =~= seg_views(orig).skip(1));
            }
            let mut out: Vec<String> = insert_path(x, w);
            let ghost mid = out@;
            out.insert(0, head);
            proof {
                assert(out@ =~= seq![orig[0]] + mid);
                assert(seg_views(out@) =~= seq![orig[0]@] + seg_views(mid));
                assert(seg_views(out@) =~= insert_lex(x@, seg_views(orig)));
            }
            out
        }
    }
}

/// Collects the `.evtx` file paths under `dirpath`, whose entries are given
/// as a tree, in lexicographic order.
#[verifier::loop_isolation(false)]
pub fn collect_evtxfiles(dirpath: &String, entries: &Vec<FsTree>) -> (r: Vec<String>)
    ensures
        seg_views(r@) == sort_lex(evtx_paths(dirpath@, entries@)),
{
    let suffix: String = suffix_string();
    let mut out: Vec<String> = Vec::new();
    collect_into(dirpath, entries, &suffix, &mut out);
    proof {
        assert(seg_views(out@) =~= Seq::<Seq<char>>::empty() + evtx_paths(dirpath@, entries@));
    }
    let n: usize = out.len();
    let ghost found = out@;
    let mut remaining: Vec<String> = out;
    let mut sorted: Vec<String> = Vec::new();
    let mut i: usize = 0;
    proof {
        assert(remaining@ =~= found.skip(0));
        assert(seg_views(found.take(0)) =~= Seq::<Seq<char>>::empty());
        assert(seg_views(sorted@) =~= sort_lex(seg_views(found.take(0))));
    }
    while i < n
        invariant
            i <= n,
            n == found.len(),
            remaining@ == found.skip(i as int),
            seg_views(sorted@) == sort_lex(seg_views(found.take(i as int))),
        decreases n - i,
    {
        let x: String = remaining.remove(0);
        proof {
            assert(found.skip(i as int)[0] == found[i as int]);
            assert(remaining@ =~= found.skip(i + 1));
        }
        sorted = insert_path(x, sorted);
        proof {
            assert(found.take(i + 1).drop_last() =~= found.take(i as int));
            assert(found.take(i + 1).last() == found[i as int]);
            assert(seg_views(found.take(i + 1)).drop_last() =~= seg_views(found.take(i as int)));
            assert(seg_views(found.take(i + 1)).last() == found[i as int]@);
            assert(seg_views(sorted@) =~= sort_lex(seg_views(found.take(i + 1))));
        }
        i = i + 1;
    }
    proof {
        assert(found.take(n as int) =~= found);
    }
    sorted
}

/// Whether a path list stands in lexicographic order.
pub open spec fn lex_sorted(s: Seq<Seq<char>>) -> bool {
    forall|i: int| 0 <= i < s.len() - 1 ==> lex_le(#[trigger] s[i], s[i + 1])
}

proof fn lemma_insert_lex_sorted(x: Seq<char>, s: Seq<Seq<char>>)
    requires
        lex_sorted(s),
    ensures
        lex_sorted(insert_lex(x, s)),
        insert_lex(x, s).to_multiset() == s.to_multiset().insert(x),
    decreases s.len(),
{
    broadcast use vstd::seq_lib::group_seq_properties;

    let out = insert_lex(x, s);
    if s.len() == 0 {
        assert(out =~= Seq::<Seq<char>>::empty().push(x));
        Seq::<Seq<char>>::empty().to_multiset_ensures();
    } else if lex_le(x, s[0]) {
        assert(out =~= seq![x] + s);
        vstd::seq_lib::lemma_multiset_commutative(seq![x], s);
        assert(seq![x].to_multiset() =~= Multiset::<Seq<char>>::empty().insert(x)) by {
            assert(seq![x] =~= Seq::<Seq<char>>::empty().push(x));
            Seq::<Seq<char>>::empty().to_multiset_ensures();
        }
        assert(out.to_multiset() =~= s.to_multiset().insert(x));
        assert forall|i: int| 0 <= i < out.len() - 1 implies lex_le(
            #[trigger] out[i],
            out[i + 1],
        ) by {
            if i > 0 {
                assert(out[i] == s[i - 1]);
                assert(out[i + 1] == s[i]);
            }
        }
    } else {
        assert(forall|j: int| 0 <= j < s.skip(1).len() ==> s.skip(1)[j] == s[j + 1]);
        lemma_insert_lex_sorted(x, s.skip(1));
        let rest = insert_lex(x, s.skip(1));
        assert(out =~= seq![s[0]] + rest);
        vstd::seq_lib::lemma_multiset_commutative(seq![s[0]], rest);
        vstd::seq_lib::lemma_multiset_commutative(seq![s[0]], s.skip(1));
        assert(s =~= seq![s[0]] + s.skip(1));
        assert(seq![s[0]].to_multiset() =~= Multiset::<Seq<char>>::empty().insert(s[0])) by {
            assert(seq![s[0]] =~= Seq::<Seq<char>>::empty().push(s[0]));
            Seq::<Seq<char>>::empty().to_multiset_ensures();
        }
        assert(out.to_multiset() =~= s.to_multiset().insert(x));
        assert forall|i: int| 0 <= i < out.len() - 1 implies lex_le(
            #[trigger] out[i],
            out[i + 1],
        ) by {
            if i == 0 {
                assert(out[1] == rest[0]);
                if !crate::strtext::lex_lt(x, s[0]) && !crate::strtext::lex_lt(s[0], x) {
                    crate::strtext::lemma_lex_total(x, s[0]);
                }
                if rest.len() > 0 {
                    if s.skip(1).len() == 0 {
                        assert(rest[0] == x);
                    } else if lex_le(x, s.skip(1)[0]) {
                        assert(rest[0] == x);
                    } else {
                        assert(rest[0] == s.skip(1)[0]);
                    }
                }
            } else {
                assert(out[i] == rest[i - 1]);
                assert(out[i + 1] == rest[i]);
            }
        }
    }
}

/// The enumerator's order: sorting by `sort_lex` gives a lexicographically
/// ordered list holding exactly the collected paths.
pub proof fn lemma_sort_lex_sorted(s: Seq<Seq<char>>)
    ensures
        lex_sorted(sort_lex(s)),
        sort_lex(s).to_multiset() == s.to_multiset(),
    decreases s.len(),
{
    broadcast use vstd::seq_lib::group_seq_properties;

    if s.len() > 0 {
        lemma_sort_lex_sorted(s.drop_last());
        lemma_insert_lex_sorted(s.last(), sort_lex(s.drop_last()));
        s.drop_last().to_multiset_ensures();
        assert(s =~= s.drop_last().push(s.last()));
        assert(sort_lex(s).to_multiset() =~= s.to_multiset());
    }
}

#[verifier::loop_isolation(false)]
fn collect_into(prefix: &String, entries: &Vec<FsTree>, suffix: &String, out: &mut Vec<String>)
    requires
        suffix@ == evtx_suffix(),
    ensures
        seg_views(final(out)@) == seg_views(old(out)@) + evtx_paths(prefix@, entries@),
    decreases *entries,
{
    let n: usize = entries.len();
    let mut i: usize = 0;
    proof {
        assert(entries@.take(0) =~= Seq::<FsTree>::empty());
        assert(seg_views(out@) =~= seg_views(out@) + evtx_paths(prefix@, entries@.take(0)));
    }
    while i < n
        invariant
            i <= n,
            n == entries@.len(),
            seg_views(out@) == seg_views(old(out)@) + evtx_paths(prefix@, entries@.take(i as int)),
        decreases n - i,
    {
        let ghost before = out@;
        proof {
            assert(decreases_to!(*entries => entries@));
            assert(decreases_to!(entries@ => entries@[i as int]));
        }
        match &entries[i] {
            FsTree::File { name } => {
                let path: String = join_path(prefix, name);
                if crate::strtext::str_ends_with(&path, suffix) {
                    out.push(path);
                    proof {
                        reveal(Seq::filter);
                        let p = paths_of(prefix@, entries@[i as int]);
                        assert(p.drop_last() =~= Seq::<Seq<char>>::empty());
                        assert(p.last() == node_path(prefix@, name@));
                        assert(p.filter(|q: Seq<char>| ends_with(q, evtx_suffix()))
                            =~= seq![node_path(prefix@, name@)]);
                        assert(seg_views(out@) =~= seg_views(before).push(node_path(prefix@, name@)));
                    }
                } else {
                    proof {
                        reveal(Seq::filter);
                        let p = paths_of(prefix@, entries@[i as int]);
                        assert(p.drop_last() =~= Seq::<Seq<char>>::empty());
                        assert(p.last() == node_path(prefix@, name@));
                        assert(p.filter(|q: Seq<char>| ends_with(q, evtx_suffix()))
                            =~= Seq::<Seq<char>>::empty());
                    }
                }
            },
            FsTree::Dir { name, entries: sub } => {
                let subdir: String = join_path(prefix, name);
                proof {
                    assert(decreases_to!(entries@[i as int] => *sub));
                }
                collect_into(&subdir, sub, suffix, out);
                proof {
                    lemma_filter_add(
                        paths_of_list(prefix@, entries@.take(i as int)),
                        paths_of(prefix@, entries@[i as int]),
                    );
                }
            },
        }
        proof {
            assert(entries@.take(i + 1).drop_last() =~= entries@.take(i as int));
            assert(entries@.take(i + 1).last() == entries@[i as int]);
            lemma_filter_add(
                paths_of_list(prefix@, entries@.take(i as int)),
                paths_of(prefix@, entries@[i as int]),
            );
            assert(seg_views(out@) =~= seg_views(old(out)@) + evtx_paths(
                prefix@,
                entries@.take(i + 1),
            ));
        }
        i = i + 1;
    }
    proof {
        assert(entries@.take(n as int) =~= entries@);
    }
}

/// Filtering distributes over concatenation.
proof fn lemma_filter_add(a: Seq<Seq<char>>, b: Seq<Seq<char>>)
    ensures
        (a + b).filter(|p: Seq<char>| ends_with(p, evtx_suffix())) == a.filter(
            |p: Seq<char>| ends_with(p, evtx_suffix()),
        ) + b.filter(|p: Seq<char>| ends_with(p, evtx_suffix())),
{
    Seq::<Seq<char>>::filter_distributes_over_add(
        a,
        b,
        |p: Seq<char>| ends_with(p, evtx_suffix()),
    );
}

/// What the enumerator returns, membership-wise: exactly the file paths of
/// the tree that end in `.evtx`.
pub proof fn lemma_enumerate_exact(prefix: Seq<char>, es: Seq<FsTree>, p: Seq<char>)
    ensures
        sort_lex(evtx_paths(prefix, es)).contains(p) <==> (paths_of_list(prefix, es).contains(p)
            && ends_with(p, evtx_suffix())),
{
    let pred = |q: Seq<char>| ends_with(q, evtx_suffix());
    let base = paths_of_list(prefix, es);
    let filtered = evtx_paths(prefix, es);
    lemma_sort_lex_sorted(filtered);
    filtered.to_multiset_ensures();
    sort_lex(filtered).to_multiset_ensures();
    assert(filtered.contains(p) <==> filtered.to_multiset().count(p) > 0);
    assert(sort_lex(filtered).contains(p) <==> sort_lex(filtered).to_multiset().count(p) > 0);
    assert(sort_lex(filtered).to_multiset().count(p) == filtered.to_multiset().count(p));
    assert(sort_lex(filtered).contains(p) <==> filtered.contains(p));
    if filtered.contains(p) {
        base.lemma_filter_contains_rev(pred, p);
        #[allow(deprecated)]
        base.filter_lemma(pred);
        let i = choose|i: int| 0 <= i < base.filter(pred).len() && base.filter(pred)[i] == p;
        assert(pred(base.filter(pred)[i]));
    }
    if base.contains(p) && ends_with(p, evtx_suffix()) {
        let i = choose|i: int| 0 <= i < base.len() && base[i] == p;
        Seq::lemma_filter_contains(base, pred, i);
    }
}

} // verus!
