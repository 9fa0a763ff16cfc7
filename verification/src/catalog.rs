//! Reading the catalog: the editions it lists, and the channel key under
//! which a TQO edition's installed patch is remembered.
use vstd::prelude::*;
use crate::model::{opt_view, Catalog, Edition, EditionInfo};
use crate::sorting::{str_less, text_less};
use crate::table::key_at;
use crate::text::concat_str;

verus! {

/// The TQO channel of edition `key`, if the catalog has that edition and it
/// has TQO settings.
pub open spec fn tqo_channel_of(editions: Map<Seq<char>, Edition>, key: Seq<char>) -> Option<
    Seq<char>,
> {
    if editions.contains_key(key) {
        match editions[key].tqo {
            Some(c) => Some(c.channel@),
            None => None,
        }
    } else {
        None
    }
}

/// The TQO channel of an edition.
pub fn tqo_channel(catalog: &Catalog, edition: &str) -> (r: Option<String>)
    ensures
        opt_view(r) == tqo_channel_of(catalog.editions@, edition@),
{
    match catalog.editions.get(edition) {
        Some(e) => match &e.tqo {
            Some(c) => Some(c.channel.clone()),
            None => None,
        },
        None => None,
    }
}

/// `<edition>/<channel>` for a TQO edition: the key under which its
/// installed patch is remembered.
pub open spec fn patch_key_of(editions: Map<Seq<char>, Edition>, key: Seq<char>) -> Option<
    Seq<char>,
> {
    match tqo_channel_of(editions, key) {
        Some(ch) => Some(key + seq!['/'] + ch),
        None => None,
    }
}

/// The key under which an edition's installed patch is remembered.
pub fn patch_key(catalog: &Catalog, edition: &str) -> (r: Option<String>)
    ensures
        opt_view(r) == patch_key_of(catalog.editions@, edition@),
{
    match tqo_channel(catalog, edition) {
        Some(ch) => {
            let k = concat_str(edition, "/");
            proof {
                reveal_strlit("/");
            }
            let r = concat_str(k.as_str(), ch.as_str());
            assert(r@ =~= edition@ + seq!['/'] + ch@);
            Some(r)
        },
        None => None,
    }
}

/// `info` lists the edition `ed` under `key`: its key and source, and the title
/// and subtitle of its display (empty when it has none).
pub open spec fn info_of(key: Seq<char>, ed: Edition, info: EditionInfo) -> bool {
    &&& info.key@ == key
    &&& info.source@ == ed.source@
    &&& info.title@ == (match ed.display {
        Some(d) => d.title@,
        None => Seq::empty(),
    })
    &&& info.subtitle@ == (match ed.display {
        Some(d) => d.subtitle@,
        None => Seq::empty(),
    })
}

fn edition_info(key: &String, ed: &Edition) -> (r: EditionInfo)
    ensures
        info_of(key@, *ed, r),
{
    let (title, subtitle) = match &ed.display {
        Some(d) => (d.title.clone(), d.subtitle.clone()),
        None => (String::new(), String::new()),
    };
    EditionInfo { key: key.clone(), title, subtitle, source: ed.source.clone() }
}

/// The editions of the catalog as the launcher lists them: one per edition,
/// in the order of their keys.
pub fn edition_infos(catalog: &Catalog) -> (r: Vec<EditionInfo>)
    ensures
        r@.len() == catalog.editions@.dom().len(),
        forall|i: int|
            0 <= i < r@.len() ==> #[trigger] catalog.editions@.contains_key(r@[i].key@) && info_of(
                r@[i].key@,
                catalog.editions@[r@[i].key@],
                r@[i],
            ),
        forall|k: Seq<char>|
            #[trigger] catalog.editions@.contains_key(k) ==> exists|i: int|
                0 <= i < r@.len() && r@[i].key@ == k,
        forall|i: int, j: int| 0 <= i < j < r@.len() ==> text_less(r@[i].key@, r@[j].key@),
{
    let table = &catalog.editions;
    let n = table.len();
    let ghost entries = table.entry_seq();
    let mut out: Vec<EditionInfo> = Vec::new();
    // `from[i]` is the entry that `out[i]` lists; `at[k]` is where entry `k` is listed
    let ghost mut from: Seq<int> = Seq::empty();
    let ghost mut at: Seq<int> = Seq::empty();
    for m in 0..n
        invariant
            n == entries.len(),
            entries == table.entry_seq(),
            crate::table::distinct_keys(entries),
            out@.len() == m,
            listing_inv(out@, entries, table@, from, at, m as int),
            forall|i: int, j: int|
                0 <= i < j < out@.len() ==> text_less(out@[i].key@, out@[j].key@),
    {
        let (key, ed) = table.entry(m);
        let info = edition_info(key, ed);
        let mut pos: usize = 0;
        while pos < out.len() && !str_less(info.key.as_str(), out[pos].key.as_str())
            invariant
                pos <= out@.len(),
                forall|k: int| 0 <= k < pos ==> !text_less(info.key@, #[trigger] out@[k].key@),
            decreases out@.len() - pos,
        {
            pos = pos + 1;
        }
        let ghost old_out = out@;
        proof {
            assert forall|i: int| 0 <= i < old_out.len() implies #[trigger] old_out[i].key@
                != info.key@ by {
                assert(old_out[i].key@ == entries[from[i]].0@);
                assert(entries[from[i]].0@ != entries[m as int].0@);
            }
        }
        out.insert(pos, info);
        proof {
            insert_keeps_order(old_out, pos as int, info);
            let ghost (f2, a2) = listing_step(old_out, pos as int, info, entries, table@, from, at, m as int);
            from = f2;
            at = a2;
        }
    }
    proof {
        assert forall|k: Seq<char>| #[trigger] table@.contains_key(k) implies exists|i: int|
            0 <= i < out@.len() && out@[i].key@ == k by {
            let j = choose|j: int| key_at(entries, k, j);
            assert(out@[at[j]].key@ == entries[j].0@);
        }
    }
    out
}

/// `out` lists exactly the entries `0..m`, each with its info: `from[i]` is
/// the entry that `out[i]` lists, and `at[k]` is where entry `k` is listed.
pub open spec fn listing_inv(
    out: Seq<EditionInfo>,
    entries: Seq<(String, Edition)>,
    table: Map<Seq<char>, Edition>,
    from: Seq<int>,
    at: Seq<int>,
    m: int,
) -> bool {
    &&& from.len() == out.len()
    &&& at.len() == m
    &&& forall|i: int|
        0 <= i < out.len() ==> 0 <= #[trigger] from[i] < m && out[i].key@ == entries[from[i]].0@
    &&& forall|k: int|
        0 <= k < m ==> 0 <= #[trigger] at[k] < out.len() && out[at[k]].key@ == entries[k].0@
    &&& forall|i: int|
        0 <= i < out.len() ==> #[trigger] table.contains_key(out[i].key@) && info_of(
            out[i].key@,
            table[out[i].key@],
            out[i],
        )
}

/// Inserting the info of entry `m` at `pos` keeps the listing invariant.
proof fn listing_step(
    out: Seq<EditionInfo>,
    pos: int,
    info: EditionInfo,
    entries: Seq<(String, Edition)>,
    table: Map<Seq<char>, Edition>,
    from: Seq<int>,
    at: Seq<int>,
    m: int,
) -> (r: (Seq<int>, Seq<int>))
    requires
        0 <= pos <= out.len(),
        0 <= m < entries.len(),
        info.key@ == entries[m].0@,
        table.contains_key(info.key@),
        info_of(info.key@, table[info.key@], info),
        listing_inv(out, entries, table, from, at, m),
    ensures
        listing_inv(out.insert(pos, info), entries, table, r.0, r.1, m + 1),
{
    let o2 = out.insert(pos, info);
    let f2 = from.insert(pos, m);
    let a2 = Seq::new(
        (m + 1) as nat,
        |k: int|
            if k == m {
                pos
            } else if at[k] >= pos {
                at[k] + 1
            } else {
                at[k]
            },
    );
    assert forall|i: int| 0 <= i < o2.len() implies 0 <= #[trigger] f2[i] < m + 1 && o2[i].key@
        == entries[f2[i]].0@ by {
        if i < pos {
            assert(o2[i] == out[i] && f2[i] == from[i]);
        } else if i > pos {
            assert(o2[i] == out[i - 1] && f2[i] == from[i - 1]);
        }
    }
    assert forall|k: int| 0 <= k < m + 1 implies 0 <= #[trigger] a2[k] < o2.len() && o2[a2[k]].key@
        == entries[k].0@ by {
        if k < m {
            if at[k] >= pos {
                assert(o2[at[k] + 1] == out[at[k]]);
            } else {
                assert(o2[at[k]] == out[at[k]]);
            }
        }
    }
    assert forall|i: int| 0 <= i < o2.len() implies #[trigger] table.contains_key(o2[i].key@)
        && info_of(o2[i].key@, table[o2[i].key@], o2[i]) by {
        if i < pos {
            assert(o2[i] == out[i]);
        } else if i > pos {
            assert(o2[i] == out[i - 1]);
        }
    }
    assert(f2.len() == o2.len());
    assert(a2.len() == m + 1);
    assert(listing_inv(o2, entries, table, f2, a2, m + 1));
    (f2, a2)
}

/// Inserting a key before the first greater one, when it equals none of the
/// keys, keeps the keys in strictly increasing order.
proof fn insert_keeps_order(out: Seq<EditionInfo>, pos: int, info: EditionInfo)
    requires
        0 <= pos <= out.len(),
        forall|i: int, j: int| 0 <= i < j < out.len() ==> text_less(out[i].key@, out[j].key@),
        forall|k: int| 0 <= k < pos ==> !text_less(info.key@, #[trigger] out[k].key@),
        pos < out.len() ==> text_less(info.key@, out[pos].key@),
        forall|i: int| 0 <= i < out.len() ==> #[trigger] out[i].key@ != info.key@,
    ensures
        forall|i: int, j: int|
            0 <= i < j < out.len() + 1 ==> text_less(
                out.insert(pos, info)[i].key@,
                out.insert(pos, info)[j].key@,
            ),
{
    let o2 = out.insert(pos, info);
    assert forall|i: int, j: int| 0 <= i < j < out.len() + 1 implies text_less(
        o2[i].key@,
        o2[j].key@,
    ) by {
        if j < pos {
            assert(o2[i] == out[i] && o2[j] == out[j]);
        } else if j == pos {
            assert(o2[i] == out[i]);
            assert(!text_less(info.key@, out[i].key@));
            if !text_less(out[i].key@, info.key@) {
                crate::sorting::lemma_text_less_total(out[i].key@, info.key@);
            }
        } else if i == pos {
            assert(o2[j] == out[j - 1]);
            if j - 1 > pos {
                crate::sorting::lemma_text_less_transitive(info.key@, out[pos].key@, out[j - 1].key@);
            }
        } else if i < pos {
            assert(o2[i] == out[i] && o2[j] == out[j - 1]);
        } else {
            assert(o2[i] == out[i - 1] && o2[j] == out[j - 1]);
        }
    }
}

} // verus!
