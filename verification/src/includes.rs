//! The include table: files found under the includes directories, keyed by
//! their path relative to the directory.
use vstd::prelude::*;
use crate::text::{chars_to_string, replace_all, replace_chars, str_to_chars, vec_eq};

verus! {

/// A key with `\` path separators written as `/`.
pub open spec fn include_key(relative: Seq<char>) -> Seq<char> {
    replace_all(relative, seq!['\\'], seq!['/'])
}

/// The text pairs of a list of string pairs.
pub open spec fn pair_views(v: Seq<(String, String)>) -> Seq<(Seq<char>, Seq<char>)> {
    Seq::new(v.len(), |i: int| (v[i].0@, v[i].1@))
}

/// The table `m` after registering each `(relative path, content)` file in
/// order: a later file replaces an earlier one with the same key.
pub open spec fn overlay(
    m: Map<Seq<char>, Seq<char>>,
    files: Seq<(Seq<char>, Seq<char>)>,
) -> Map<Seq<char>, Seq<char>>
    decreases files.len(),
{
    if files.len() == 0 {
        m
    } else {
        overlay(m, files.drop_last()).insert(include_key(files.last().0), files.last().1)
    }
}

/// The content of the last file whose key is `k`, if any.
pub open spec fn last_content(files: Seq<(Seq<char>, Seq<char>)>, k: Seq<char>) -> Option<
    Seq<char>,
>
    decreases files.len(),
{
    if files.len() == 0 {
        None
    } else if include_key(files.last().0) == k {
        Some(files.last().1)
    } else {
        last_content(files.drop_last(), k)
    }
}

/// No key occurs twice.
pub open spec fn keys_unique(v: Seq<(Seq<char>, Seq<char>)>) -> bool {
    forall|i: int, j: int| 0 <= i < j < v.len() ==> #[trigger] v[i].0 != #[trigger] v[j].0
}

/// The table a list of distinct-keyed entries stands for.
pub open spec fn table(v: Seq<(Seq<char>, Seq<char>)>) -> Map<Seq<char>, Seq<char>>
    decreases v.len(),
{
    if v.len() == 0 {
        Map::empty()
    } else {
        table(v.drop_last()).insert(v.last().0, v.last().1)
    }
}

proof fn lemma_table_update(v: Seq<(Seq<char>, Seq<char>)>, j: int, c: Seq<char>)
    requires
        0 <= j < v.len(),
        keys_unique(v),
    ensures
        table(v.update(j, (v[j].0, c))) == table(v).insert(v[j].0, c),
    decreases v.len(),
{
    let u = v.update(j, (v[j].0, c));
    if j == v.len() - 1 {
        assert(u.drop_last() =~= v.drop_last());
        assert(table(u) =~= table(v).insert(v[j].0, c));
    } else {
        let d = v.drop_last();
        assert(keys_unique(d)) by {
            assert forall|a: int, b: int| 0 <= a < b < d.len() implies #[trigger] d[a].0
                != #[trigger] d[b].0 by {
                assert(d[a] == v[a] && d[b] == v[b]);
            }
        }
        lemma_table_update(d, j, c);
        assert(u.drop_last() =~= d.update(j, (d[j].0, c)));
        assert(v[j].0 != v[v.len() - 1].0);
        assert(table(u) =~= table(v).insert(v[j].0, c));
    }
}

proof fn lemma_table_push_absent(v: Seq<(Seq<char>, Seq<char>)>, k: Seq<char>)
    requires
        forall|i: int| 0 <= i < v.len() ==> #[trigger] v[i].0 != k,
    ensures
        !table(v).dom().contains(k),
    decreases v.len(),
{
    if v.len() > 0 {
        let d = v.drop_last();
        assert forall|i: int| 0 <= i < d.len() implies #[trigger] d[i].0 != k by {
            assert(d[i] == v[i]);
        }
        lemma_table_push_absent(d, k);
    }
}

/// The table after the files: a key maps to the content of the last file
/// with that key, and otherwise keeps what `m` had.
pub proof fn lemma_overlay_contents(m: Map<Seq<char>, Seq<char>>, files: Seq<(Seq<char>, Seq<char>)>, k: Seq<char>)
    ensures
        overlay(m, files).dom().contains(k) <==> (m.dom().contains(k) || last_content(files, k) is Some),
        overlay(m, files).dom().contains(k) ==> overlay(m, files)[k] == match last_content(files, k) {
            Some(c) => c,
            None => m[k],
        },
    decreases files.len(),
{
    if files.len() > 0 {
        lemma_overlay_contents(m, files.drop_last(), k);
    }
}

/// Registering the same files a second time changes nothing: loading one
/// directory as both the default and the custom includes gives the same
/// table as loading it once.
pub proof fn lemma_overlay_twice(m: Map<Seq<char>, Seq<char>>, files: Seq<(Seq<char>, Seq<char>)>)
    ensures
        overlay(overlay(m, files), files) == overlay(m, files),
{
    let once = overlay(m, files);
    let twice = overlay(once, files);
    assert forall|k: Seq<char>| #[trigger] twice.dom().contains(k) <==> once.dom().contains(k) by {
        lemma_overlay_contents(m, files, k);
        lemma_overlay_contents(once, files, k);
    }
    assert forall|k: Seq<char>| #[trigger] twice.dom().contains(k) implies twice[k] == once[k] by {
        lemma_overlay_contents(m, files, k);
        lemma_overlay_contents(once, files, k);
    }
    assert(twice =~= once);
}

/// The key an include file is registered under.
pub fn include_key_of(relative: &str) -> (r: Vec<char>)
    ensures
        r@ == include_key(relative@),
{
    let s = str_to_chars(relative);
    let from = vec!['\\'];
    let to = vec!['/'];
    assert(from@ =~= seq!['\\']);
    assert(to@ =~= seq!['/']);
    replace_chars(&s, &from, &to)
}

/// The position of the entry with key `key`, if any.
fn find_key(entries: &Vec<(String, String)>, key: &Vec<char>) -> (r: Option<usize>)
    ensures
        match r {
            Some(j) => j < entries.len() && pair_views(entries@)[j as int].0 == key@,
            None => forall|m: int| 0 <= m < entries.len() ==> #[trigger] pair_views(entries@)[m].0 != key@,
        },
{
    let mut j: usize = 0;
    while j < entries.len()
        invariant
            j <= entries.len(),
            forall|m: int| 0 <= m < j ==> #[trigger] pair_views(entries@)[m].0 != key@,
        decreases entries.len() - j,
    {
        let kc = str_to_chars(entries[j].0.as_str());
        if vec_eq(&kc, key) {
            return Some(j);
        }
        j += 1;
    }
    None
}

/// Registers the files, in order, into `table`.
fn register_files(entries: &mut Vec<(String, String)>, files: &Vec<(String, String)>)
    requires
        keys_unique(pair_views(old(entries)@)),
    ensures
        keys_unique(pair_views(final(entries)@)),
        table(pair_views(final(entries)@)) == overlay(table(pair_views(old(entries)@)), pair_views(files@)),
{
    let ghost start = table(pair_views(entries@));
    let ghost fv = pair_views(files@);
    let mut i: usize = 0;
    while i < files.len()
        invariant
            i <= files.len(),
            fv == pair_views(files@),
            keys_unique(pair_views(entries@)),
            table(pair_views(entries@)) == overlay(start, fv.take(i as int)),
        decreases files.len() - i,
    {
        assert(fv.take(i + 1).drop_last() =~= fv.take(i as int));
        assert(fv.take(i + 1).last() == fv[i as int]);
        let key = include_key_of(files[i].0.as_str());
        let content = files[i].1.clone();
        assert(key@ == include_key(fv[i as int].0) && content@ == fv[i as int].1);
        let ghost ev = pair_views(entries@);
        let pos = find_key(entries, &key);
        if let Some(j) = pos {
            let name = entries[j].0.clone();
            let ghost cv = content@;
            proof {
                lemma_table_update(ev, j as int, cv);
            }
            entries.set(j, (name, content));
            assert(pair_views(entries@) =~= ev.update(j as int, (ev[j as int].0, cv)));
        } else {
            let ghost kv = key@;
            let ghost cv = content@;
            let ks = chars_to_string(&key);
            entries.push((ks, content));
            assert(pair_views(entries@) =~= ev.push((kv, cv)));
            assert(ev.push((kv, cv)).drop_last() =~= ev);
            assert(table(ev.push((kv, cv))) == table(ev).insert(kv, cv));
            proof {
                lemma_table_push_absent(ev, kv);
            }
            assert(keys_unique(pair_views(entries@))) by {
                let nv = ev.push((kv, cv));
                assert forall|a: int, b: int| 0 <= a < b < nv.len() implies #[trigger] nv[a].0
                    != #[trigger] nv[b].0 by {
                    if b == ev.len() {
                        assert(ev[a].0 != kv);
                    } else {
                        assert(nv[a] == ev[a] && nv[b] == ev[b]);
                    }
                }
            }
        }
        i += 1;
    }
    assert(fv.take(files.len() as int) =~= fv);
}

/// The include table of one directory, given its files as
/// `(path relative to the directory, content)` in the order they were found;
/// a later file replaces an earlier one with the same key.
pub fn load_includes(files: &Vec<(String, String)>) -> (r: Vec<(String, String)>)
    ensures
        keys_unique(pair_views(r@)),
        table(pair_views(r@)) == overlay(Map::empty(), pair_views(files@)),
{
    let mut entries: Vec<(String, String)> = Vec::new();
    assert(pair_views(entries@) =~= Seq::<(Seq<char>, Seq<char>)>::empty());
    assert(table(pair_views(entries@)) == Map::<Seq<char>, Seq<char>>::empty());
    register_files(&mut entries, files);
    entries
}

/// The include table of the default directory with the custom directory's
/// files laid over it: a custom file replaces a default one with the same key.
/// Where both directories are one, the caller passes its files once, as
/// `default_files`, and no custom files.
pub fn load_includes_merged(
    default_files: &Vec<(String, String)>,
    custom_files: &Vec<(String, String)>,
) -> (r: Vec<(String, String)>)
    ensures
        keys_unique(pair_views(r@)),
        table(pair_views(r@)) == overlay(
            overlay(Map::empty(), pair_views(default_files@)),
            pair_views(custom_files@),
        ),
{
    let mut entries = load_includes(default_files);
    register_files(&mut entries, custom_files);
    entries
}

} // verus!
