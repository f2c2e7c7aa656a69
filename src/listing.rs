//! Directory listings: display names, their order, and the links of a page.
use vstd::multiset::Multiset;
use vstd::prelude::*;

use crate::paths::{
    all_plain, is_plain_name, is_prefix, law_url_round_trip, resolve_spec, url_of, url_spec,
};

verus! {

/// Strict lexicographic order on texts, character by character (for UTF-8
/// text the same order as byte by byte).
pub open spec fn text_lt(a: Seq<char>, b: Seq<char>) -> bool
    decreases a.len(),
{
    if a.len() == 0 {
        b.len() > 0
    } else if b.len() == 0 {
        false
    } else if a[0] != b[0] {
        (a[0] as int) < (b[0] as int)
    } else {
        text_lt(a.drop_first(), b.drop_first())
    }
}

pub proof fn lemma_text_lt_irreflexive(a: Seq<char>)
    ensures
        !text_lt(a, a),
    decreases a.len(),
{
    if a.len() > 0 {
        lemma_text_lt_irreflexive(a.drop_first());
    }
}

pub proof fn lemma_text_lt_transitive(a: Seq<char>, b: Seq<char>, c: Seq<char>)
    requires
        text_lt(a, b),
        text_lt(b, c),
    ensures
        text_lt(a, c),
    decreases a.len(),
{
    if a.len() > 0 && b.len() > 0 && c.len() > 0 && a[0] == b[0] && b[0] == c[0] {
        lemma_text_lt_transitive(a.drop_first(), b.drop_first(), c.drop_first());
    }
}

pub proof fn lemma_text_lt_total(a: Seq<char>, b: Seq<char>)
    requires
        a != b,
    ensures
        text_lt(a, b) || text_lt(b, a),
    decreases a.len(),
{
    if a.len() > 0 && b.len() > 0 && a[0] == b[0] {
        if a.drop_first() == b.drop_first() {
            assert(a =~= seq![a[0]] + a.drop_first());
            assert(b =~= seq![b[0]] + b.drop_first());
        }
        lemma_text_lt_total(a.drop_first(), b.drop_first());
    } else if a.len() == 0 && b.len() == 0 {
        assert(a =~= b);
    } else if a.len() > 0 && b.len() > 0 {
        assert((a[0] as int) != (b[0] as int));
    }
}

pub proof fn lemma_text_lt_asymmetric(a: Seq<char>, b: Seq<char>)
    requires
        text_lt(a, b),
    ensures
        !text_lt(b, a),
{
    if text_lt(b, a) {
        lemma_text_lt_transitive(a, b, a);
        lemma_text_lt_irreflexive(a);
    }
}

/// "Not below" is transitive.
pub proof fn lemma_not_lt_transitive(a: Seq<char>, b: Seq<char>, c: Seq<char>)
    requires
        !text_lt(a, b),
        !text_lt(b, c),
    ensures
        !text_lt(a, c),
{
    if text_lt(a, c) {
        if b != c {
            lemma_text_lt_total(b, c);
            lemma_text_lt_transitive(a, c, b);
        }
    }
}

/// Compares two texts by `text_lt`.
pub fn less_text(a: &String, b: &String) -> (r: bool)
    ensures
        r == text_lt(a@, b@),
{
    let x = a.as_str();
    let y = b.as_str();
    let n = x.unicode_len();
    let m = y.unicode_len();
    let mut i: usize = 0;
    proof {
        assert(x@.skip(0) =~= x@);
        assert(y@.skip(0) =~= y@);
    }
    while i < n && i < m
        invariant
            n == x@.len(),
            m == y@.len(),
            x@ == a@,
            y@ == b@,
            i <= n,
            i <= m,
            text_lt(a@, b@) == text_lt(x@.skip(i as int), y@.skip(i as int)),
        decreases n - i,
    {
        let c = x.get_char(i);
        let d = y.get_char(i);
        proof {
            assert(x@.skip(i as int)[0] == c);
            assert(y@.skip(i as int)[0] == d);
            assert(x@.skip(i as int).drop_first() =~= x@.skip(i + 1));
            assert(y@.skip(i as int).drop_first() =~= y@.skip(i + 1));
        }
        if c != d {
            return (c as u32) < (d as u32);
        }
        i = i + 1;
    }
    i == n && i < m
}

/// One entry found in a directory.
#[derive(Debug)]
pub struct DirEntry {
    pub name: String,
    pub is_dir: bool,
}

/// One line of a listing: the text shown and the URL it links to.
#[derive(Debug)]
pub struct ListingItem {
    pub name: String,
    pub link: String,
}

/// The name shown for an entry: directories get a trailing `/`.
pub open spec fn display_spec(name: Seq<char>, is_dir: bool) -> Seq<char> {
    if is_dir {
        name.push('/')
    } else {
        name
    }
}

/// The name shown for an entry called `name`.
pub fn display_name(name: &String, is_dir: bool) -> (r: String)
    ensures
        r@ == display_spec(name@, is_dir),
        name@.len() > 0 && name@.last() != '/' ==> (r@.len() > 0 && r@.last() == '/' <==> is_dir),
{
    let mut r = name.clone();
    if is_dir {
        r.append("/");
        proof {
            reveal_strlit("/");
            assert(r@ =~= name@.push('/'));
        }
    }
    r
}

/// Items in order of their shown names.
pub open spec fn sorted_by_name(s: Seq<ListingItem>) -> bool {
    forall|i: int, j: int| 0 <= i < j < s.len() ==> !text_lt(#[trigger] s[j].name@, #[trigger] s[i].name@)
}

/// Puts `items` in order of their shown names.
pub fn sort_by_name(items: Vec<ListingItem>) -> (r: Vec<ListingItem>)
    ensures
        sorted_by_name(r@),
        r@.to_multiset() == items@.to_multiset(),
        item_views(r@).to_multiset() == item_views(items@).to_multiset(),
{
    let ghost all = items@.to_multiset();
    let ghost allv = item_views(items@).to_multiset();
    let mut rest = items;
    let mut out: Vec<ListingItem> = Vec::new();
    proof {
        broadcast use vstd::seq_lib::group_to_multiset_ensures;
        assert(out@.to_multiset() =~= Multiset::empty());
        assert(item_views(out@) =~= Seq::<(Seq<char>, Seq<char>)>::empty());
        assert(item_views(out@).to_multiset() =~= Multiset::empty());
        assert(item_views(rest@) == item_views(items@));
    }
    while rest.len() > 0
        invariant
            sorted_by_name(out@),
            out@.to_multiset().add(rest@.to_multiset()) == all,
            item_views(out@).to_multiset().add(item_views(rest@).to_multiset()) == allv,
        decreases rest.len(),
    {
        let ghost before_rest = rest@;
        let x = rest.pop().unwrap();
        proof {
            broadcast use vstd::seq_lib::group_to_multiset_ensures;
            assert(before_rest =~= rest@.push(x));
            assert(item_views(before_rest) =~= item_views(rest@).push(x@));
        }
        let mut pos: usize = 0;
        while pos < out.len() && less_text(&out[pos].name, &x.name)
            invariant
                pos <= out.len(),
                forall|k: int| 0 <= k < pos ==> text_lt(#[trigger] out@[k].name@, x.name@),
            decreases out.len() - pos,
        {
            pos = pos + 1;
        }
        let ghost old_out = out@;
        out.insert(pos, x);
        proof {
            broadcast use vstd::seq_lib::group_to_multiset_ensures;
            let s2 = out@;
            assert(s2.remove(pos as int) =~= old_out);
            assert(s2.contains(x)) by {
                assert(s2[pos as int] == x);
            }
            assert(old_out.to_multiset() =~= s2.to_multiset().remove(x));
            assert(s2.to_multiset() =~= old_out.to_multiset().insert(x));
            let v2 = item_views(s2);
            let v1 = item_views(old_out);
            assert(v2.remove(pos as int) =~= v1);
            assert(v2.contains(x@)) by {
                assert(v2[pos as int] == x@);
            }
            assert(v1.to_multiset() =~= v2.to_multiset().remove(x@));
            assert(v2.to_multiset() =~= v1.to_multiset().insert(x@));
            assert forall|i: int, j: int| 0 <= i < j < s2.len() implies !text_lt(
                #[trigger] s2[j].name@,
                #[trigger] s2[i].name@,
            ) by {
                if j < pos {
                    assert(s2[i] == old_out[i] && s2[j] == old_out[j]);
                } else if j == pos {
                    assert(s2[i] == old_out[i]);
                    lemma_text_lt_asymmetric(old_out[i].name@, x.name@);
                } else if i < pos {
                    assert(s2[i] == old_out[i] && s2[j] == old_out[j - 1]);
                } else if i == pos {
                    assert(s2[j] == old_out[j - 1]);
                    if j - 1 > pos {
                        assert(!text_lt(old_out[j - 1].name@, old_out[pos as int].name@));
                    } else {
                        lemma_text_lt_irreflexive(old_out[pos as int].name@);
                    }
                    lemma_not_lt_transitive(old_out[j - 1].name@, old_out[pos as int].name@, x.name@);
                } else {
                    assert(s2[i] == old_out[i - 1] && s2[j] == old_out[j - 1]);
                }
            }
        }
    }
    proof {
        assert(rest@ =~= Seq::<ListingItem>::empty());
        assert(rest@.to_multiset() =~= Multiset::empty());
        assert(out@.to_multiset().add(Multiset::empty()) =~= out@.to_multiset());
        assert(item_views(rest@) =~= Seq::<(Seq<char>, Seq<char>)>::empty());
        assert(item_views(rest@).to_multiset() =~= Multiset::empty());
        assert(item_views(out@).to_multiset().add(Multiset::empty()) =~= item_views(out@).to_multiset());
    }
    out
}

impl View for ListingItem {
    type V = (Seq<char>, Seq<char>);

    open spec fn view(&self) -> (Seq<char>, Seq<char>) {
        (self.name@, self.link@)
    }
}

/// The line of a listing for `entry`, in the directory at `rel` below the
/// served root.
pub open spec fn item_spec(rel: Seq<Seq<char>>, entry: DirEntry) -> (Seq<char>, Seq<char>) {
    (display_spec(entry.name@, entry.is_dir), url_spec(rel.push(entry.name@)))
}

/// The line that leads to the parent directory.
pub open spec fn parent_item_spec(rel: Seq<Seq<char>>) -> (Seq<char>, Seq<char>) {
    (seq!['.', '.'], url_spec(rel.drop_last()))
}

/// How many lines precede the entries: one `..` line below the root.
pub open spec fn parent_lines(rel: Seq<Seq<char>>) -> int {
    if rel.len() == 0 {
        0
    } else {
        1
    }
}

/// The lines for `entries`, in their order.
pub open spec fn entry_items(rel: Seq<Seq<char>>, entries: Seq<DirEntry>) -> Seq<(Seq<char>, Seq<char>)> {
    entries.map_values(|e: DirEntry| item_spec(rel, e))
}

pub open spec fn item_views(items: Seq<ListingItem>) -> Seq<(Seq<char>, Seq<char>)> {
    items.map_values(|it: ListingItem| it@)
}

/// `items` lists the directory at `rel` holding `entries`: the `..` line
/// first unless at the root, then one line per entry, in order of names.
pub open spec fn is_listing(rel: Seq<Seq<char>>, entries: Seq<DirEntry>, items: Seq<ListingItem>) -> bool {
    &&& items.len() == entries.len() + parent_lines(rel)
    &&& rel.len() > 0 ==> items[0]@ == parent_item_spec(rel)
    &&& sorted_by_name(items.skip(parent_lines(rel)))
    &&& item_views(items.skip(parent_lines(rel))).to_multiset() == entry_items(rel, entries).to_multiset()
    &&& forall|k: int|
        parent_lines(rel) <= k < items.len() ==> entry_items(rel, entries).contains(#[trigger] items[k]@)
    &&& forall|m: int|
        0 <= m < entries.len() ==> item_views(items.skip(parent_lines(rel))).contains(#[trigger] item_spec(rel, entries[m]))
}

/// The line of a listing for `entry`.
pub fn listing_item(rel: &Vec<String>, entry: &DirEntry) -> (r: ListingItem)
    ensures
        r@ == item_spec(rel.deep_view(), *entry),
{
    let mut path = rel.clone();
    proof {
        assert(path.deep_view() == rel.deep_view()) by {
            broadcast use vstd::std_specs::vec::vec_clone_deep_view_proof;
        }
    }
    let ghost before = path.deep_view();
    path.push(entry.name.clone());
    proof {
        assert(path.deep_view() =~= before.push(entry.name@));
    }
    ListingItem { name: display_name(&entry.name, entry.is_dir), link: url_of(&path) }
}

/// The lines of the listing of the directory at `rel` (below the served
/// root) that holds `entries`.
pub fn listing_items(rel: &Vec<String>, entries: &Vec<DirEntry>) -> (r: Vec<ListingItem>)
    ensures
        is_listing(rel.deep_view(), entries@, r@),
{
    let mut lines: Vec<ListingItem> = Vec::new();
    let mut i: usize = 0;
    while i < entries.len()
        invariant
            i <= entries.len(),
            lines@.len() == i,
            forall|k: int| 0 <= k < i ==> #[trigger] lines@[k]@ == item_spec(rel.deep_view(), entries@[k]),
        decreases entries.len() - i,
    {
        lines.push(listing_item(rel, &entries[i]));
        i = i + 1;
    }
    let ghost unsorted = lines@;
    let sorted = sort_by_name(lines);
    proof {
        sorted@.to_multiset_ensures();
        unsorted.to_multiset_ensures();
        assert forall|k: int| 0 <= k < sorted@.len() implies unsorted.contains(#[trigger] sorted@[k]) by {
            assert(sorted@.contains(sorted@[k]));
            assert(sorted@.to_multiset().count(sorted@[k]) > 0);
            assert(unsorted.to_multiset().count(sorted@[k]) > 0);
        }
        assert forall|m: int| 0 <= m < unsorted.len() implies sorted@.contains(#[trigger] unsorted[m]) by {
            assert(unsorted.contains(unsorted[m]));
            assert(unsorted.to_multiset().count(unsorted[m]) > 0);
            assert(sorted@.to_multiset().count(unsorted[m]) > 0);
        }
    }
    let mut out: Vec<ListingItem> = Vec::new();
    if rel.len() > 0 {
        let mut up = rel.clone();
        proof {
            assert(up.deep_view() == rel.deep_view()) by {
                broadcast use vstd::std_specs::vec::vec_clone_deep_view_proof;
            }
        }
        let ghost before = up.deep_view();
        up.pop();
        proof {
            assert(up.deep_view() =~= before.drop_last());
        }
        let dots = String::from_str("..");
        proof {
            reveal_strlit("..");
            assert(dots@ =~= seq!['.', '.']);
        }
        out.push(ListingItem { name: dots, link: url_of(&up) });
        assert(out@[0]@ == parent_item_spec(rel.deep_view()));
    }
    let ghost head = out@;
    let ghost tail = sorted@;
    let mut sorted = sorted;
    out.append(&mut sorted);
    proof {
        let rv = rel.deep_view();
        let off = parent_lines(rv);
        assert(out@ =~= head + tail);
        assert(out@.skip(off) =~= tail);
        assert(tail.len() == unsorted.len());
        assert(head.len() == off);
        assert(rv.len() > 0 ==> out@[0]@ == parent_item_spec(rv));
        let ev = entry_items(rv, entries@);
        let tv = item_views(out@.skip(off));
        assert(item_views(unsorted) =~= ev);
        assert(tv.to_multiset() == ev.to_multiset());
        assert forall|k: int| off <= k < out@.len() implies ev.contains(#[trigger] out@[k]@) by {
            assert(out@[k] == tail[k - off]);
            assert(unsorted.contains(out@[k]));
            let m = choose|m: int| 0 <= m < unsorted.len() && unsorted[m] == out@[k];
            assert(ev[m] == out@[k]@);
        }
        assert forall|m: int| 0 <= m < entries@.len() implies tv.contains(#[trigger] item_spec(rv, entries@[m])) by {
            assert(unsorted[m]@ == item_spec(rv, entries@[m]));
            let j = choose|j: int| 0 <= j < tail.len() && tail[j] == unsorted[m];
            assert(tv[j] == tail[j]@);
        }
    }
    out
}

/// `link`, mapped back onto `root`, names the entry `m` of the directory at
/// `rel`, within `root`.
pub open spec fn names_child(
    root: Seq<Seq<char>>,
    rel: Seq<Seq<char>>,
    entries: Seq<DirEntry>,
    link: Seq<char>,
    m: int,
) -> bool {
    &&& 0 <= m < entries.len()
    &&& resolve_spec(root, link) == root + rel.push(entries[m].name@)
    &&& is_prefix(root, resolve_spec(root, link))
}

/// `link`, mapped back onto `root`, names some entry of the directory at
/// `rel`, within `root`.
pub open spec fn leads_to_child(
    root: Seq<Seq<char>>,
    rel: Seq<Seq<char>>,
    entries: Seq<DirEntry>,
    link: Seq<char>,
) -> bool {
    exists|m: int| #[trigger] names_child(root, rel, entries, link, m)
}

/// Every entry of the listing links to a URL that, mapped back onto the
/// served root, is a child of the listed directory, within the root.
pub proof fn law_links_lead_to_children(
    root: Seq<Seq<char>>,
    rel: Seq<Seq<char>>,
    entries: Seq<DirEntry>,
    items: Seq<ListingItem>,
)
    requires
        is_listing(rel, entries, items),
        all_plain(rel),
        forall|m: int| 0 <= m < entries.len() ==> is_plain_name(#[trigger] entries[m].name@),
    ensures
        forall|k: int|
            parent_lines(rel) <= k < items.len() ==> leads_to_child(root, rel, entries, #[trigger] items[k].link@),
{
    assert forall|k: int| parent_lines(rel) <= k < items.len() implies leads_to_child(root, rel, entries, #[trigger] items[k].link@) by {
        let ev = entry_items(rel, entries);
        assert(ev.contains(items[k]@));
        let m = choose|m: int| 0 <= m < ev.len() && ev[m] == items[k]@;
        let path = rel.push(entries[m].name@);
        assert(is_plain_name(entries[m].name@));
        assert(all_plain(path)) by {
            assert forall|i: int| 0 <= i < path.len() implies is_plain_name(#[trigger] path[i]) by {
                if i < rel.len() {
                    assert(path[i] == rel[i]);
                }
            }
        }
        law_url_round_trip(root, path);
        assert(items[k].link@ == url_spec(path));
        assert(names_child(root, rel, entries, items[k].link@, m));
    }
}

/// The listing of the root has no `..` line; any other listing has exactly
/// one, the first.
pub proof fn law_parent_line_first(rel: Seq<Seq<char>>, entries: Seq<DirEntry>, items: Seq<ListingItem>)
    requires
        is_listing(rel, entries, items),
        forall|m: int| 0 <= m < entries.len() ==> is_plain_name(#[trigger] entries[m].name@),
    ensures
        rel.len() == 0 ==> forall|k: int| 0 <= k < items.len() ==> #[trigger] items[k].name@ != seq!['.', '.'],
        rel.len() > 0 ==> items[0].name@ == seq!['.', '.'] && forall|k: int|
            1 <= k < items.len() ==> #[trigger] items[k].name@ != seq!['.', '.'],
{
    let off = parent_lines(rel);
    assert forall|k: int| off <= k < items.len() implies #[trigger] items[k].name@ != seq!['.', '.'] by {
        let ev = entry_items(rel, entries);
        assert(ev.contains(items[k]@));
        let m = choose|m: int| 0 <= m < ev.len() && ev[m] == items[k]@;
        let e = entries[m];
        assert(is_plain_name(e.name@));
        if e.is_dir {
            let d = e.name@.push('/');
            assert(d[d.len() - 1] == '/');
            assert(seq!['.', '.'][1] == '.');
        }
    }
}

/// Of two lines of a listing whose names are in order, the first comes
/// first.
pub proof fn law_listing_order(
    rel: Seq<Seq<char>>,
    entries: Seq<DirEntry>,
    items: Seq<ListingItem>,
    i: int,
    j: int,
)
    requires
        is_listing(rel, entries, items),
        parent_lines(rel) <= i < items.len(),
        parent_lines(rel) <= j < items.len(),
        text_lt(items[i].name@, items[j].name@),
    ensures
        i < j,
{
    let off = parent_lines(rel);
    let tail = items.skip(off);
    assert(tail[i - off] == items[i] && tail[j - off] == items[j]);
    if i == j {
        lemma_text_lt_irreflexive(items[i].name@);
    }
}

proof fn lemma_display_injective(a: DirEntry, b: DirEntry)
    requires
        is_plain_name(a.name@),
        is_plain_name(b.name@),
        display_spec(a.name@, a.is_dir) == display_spec(b.name@, b.is_dir),
    ensures
        a.name@ == b.name@,
{
    if a.is_dir && !b.is_dir {
        let d = a.name@.push('/');
        assert(b.name@[d.len() - 1] == '/');
    } else if !a.is_dir && b.is_dir {
        let d = b.name@.push('/');
        assert(a.name@[d.len() - 1] == '/');
    } else if a.is_dir && b.is_dir {
        assert(a.name@ =~= a.name@.push('/').drop_last());
        assert(b.name@ =~= b.name@.push('/').drop_last());
    }
}

/// In the listing of a directory whose entries have distinct plain names,
/// the shown names after the `..` line strictly increase.
pub proof fn law_listing_strictly_ordered(
    rel: Seq<Seq<char>>,
    entries: Seq<DirEntry>,
    items: Seq<ListingItem>,
)
    requires
        is_listing(rel, entries, items),
        forall|m: int| 0 <= m < entries.len() ==> is_plain_name(#[trigger] entries[m].name@),
        forall|m: int, n: int|
            0 <= m < n < entries.len() ==> #[trigger] entries[m].name@ != #[trigger] entries[n].name@,
    ensures
        forall|i: int, j: int|
            parent_lines(rel) <= i < j < items.len() ==> text_lt(#[trigger] items[i].name@, #[trigger] items[j].name@),
{
    let off = parent_lines(rel);
    let ev = entry_items(rel, entries);
    let tail = items.skip(off);
    let tv = item_views(tail);
    assert(ev.no_duplicates()) by {
        assert forall|a: int, b: int| 0 <= a < ev.len() && 0 <= b < ev.len() && a != b implies ev[a] != ev[b] by {
            if ev[a] == ev[b] {
                lemma_display_injective(entries[a], entries[b]);
                if a < b {
                    assert(entries[a].name@ != entries[b].name@);
                } else {
                    assert(entries[b].name@ != entries[a].name@);
                }
            }
        }
    }
    ev.lemma_multiset_has_no_duplicates();
    tv.lemma_multiset_has_no_duplicates_conv();
    assert forall|i: int, j: int| off <= i < j < items.len() implies text_lt(
        #[trigger] items[i].name@,
        #[trigger] items[j].name@,
    ) by {
        assert(tail[i - off] == items[i] && tail[j - off] == items[j]);
        assert(tv[i - off] == items[i]@ && tv[j - off] == items[j]@);
        assert(ev.contains(items[i]@));
        assert(ev.contains(items[j]@));
        let a = choose|a: int| 0 <= a < ev.len() && ev[a] == items[i]@;
        let b = choose|b: int| 0 <= b < ev.len() && ev[b] == items[j]@;
        if items[i].name@ == items[j].name@ {
            lemma_display_injective(entries[a], entries[b]);
            if a != b {
                if a < b {
                    assert(entries[a].name@ != entries[b].name@);
                } else {
                    assert(entries[b].name@ != entries[a].name@);
                }
            }
            assert(tv[i - off] == tv[j - off]);
        }
        lemma_text_lt_total(items[i].name@, items[j].name@);
    }
}

} // verus!
