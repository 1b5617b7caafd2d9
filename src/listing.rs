//! The HTML index of a directory, with links rooted at the server root.
use crate::escape::{
    decode_spec, encode_segment, encode_spec, escape_html, html_spec, lemma_decode_encode,
};
use crate::path::{
    is_name, join_segments, join_spec, lemma_resolved_names, lemma_split_no_slash, normalize_spec, request_segments,
    split_spec, string_views,
};
use vstd::prelude::*;

verus! {

/// One immediate child of a listed directory.
pub struct DirEntry {
    pub name: String,
    pub is_dir: bool,
    pub size: u64,
}

/// Each segment encoded for a link.
pub open spec fn encode_all(segs: Seq<Seq<char>>) -> Seq<Seq<char>> {
    segs.map_values(|x: Seq<char>| encode_spec(x))
}

/// The `/`-rooted link of the child `name` of the directory at `rel`, each
/// segment encoded.
pub open spec fn link_spec(rel: Seq<Seq<char>>, name: Seq<char>) -> Seq<char> {
    seq!['/'] + join_spec(encode_all(rel.push(name)))
}

pub open spec fn digit_spec(d: nat) -> char {
    seq!['0', '1', '2', '3', '4', '5', '6', '7', '8', '9'][d as int]
}

/// The decimal digits of `n`.
pub open spec fn decimal_spec(n: nat) -> Seq<char>
    decreases n,
{
    if n < 10 {
        seq![digit_spec(n)]
    } else {
        decimal_spec(n / 10).push(digit_spec(n % 10))
    }
}

pub open spec fn icon_spec(is_dir: bool) -> Seq<char> {
    if is_dir {
        "📁"@
    } else {
        "📄"@
    }
}

/// The size note of an entry: the byte count of a file; nothing for a
/// directory, whose metadata length means nothing here.
pub open spec fn size_note_spec(is_dir: bool, size: u64) -> Seq<char> {
    if is_dir {
        Seq::<char>::empty()
    } else {
        "  - "@ + decimal_spec(size as nat) + " bytes"@
    }
}

/// One list item: indicator, anchor to the rooted link with the bare name,
/// as HTML text, for its text, and the size note.
pub open spec fn item_spec(rel: Seq<Seq<char>>, e: DirEntry) -> Seq<char> {
    "<li>"@ + icon_spec(e.is_dir) + " <a href=\""@ + link_spec(rel, e.name@) + "\">"@ + html_spec(e.name@)
        + "</a>"@ + size_note_spec(e.is_dir, e.size) + "</li>"@
}

pub open spec fn items_spec(rel: Seq<Seq<char>>, entries: Seq<DirEntry>) -> Seq<char>
    decreases entries.len(),
{
    if entries.len() == 0 {
        Seq::<char>::empty()
    } else {
        items_spec(rel, entries.drop_last()) + item_spec(rel, entries.last())
    }
}

/// The whole index page: one item per entry, in the order given.
pub open spec fn listing_spec(rel: Seq<Seq<char>>, entries: Seq<DirEntry>) -> Seq<char> {
    "<html><body><ul>"@ + items_spec(rel, entries) + "</ul></body></html>"@
}

fn digit(d: u64) -> (r: &'static str)
    requires
        d < 10,
    ensures
        r@ == seq![digit_spec(d as nat)],
{
    let all = "0123456789";
    proof {
        reveal_strlit("0123456789");
    }
    let r = all.substring_char(d as usize, d as usize + 1);
    assert(r@ =~= seq![digit_spec(d as nat)]);
    r
}

/// The decimal digits of `n`.
pub fn decimal(n: u64) -> (r: String)
    ensures
        r@ == decimal_spec(n as nat),
    decreases n,
{
    if n < 10 {
        String::from_str(digit(n))
    } else {
        let mut s = decimal(n / 10);
        s.append(digit(n % 10));
        s
    }
}

/// The `/`-rooted link of the child `name` of the directory whose
/// normalized segments are `rel`, each segment encoded.
pub fn link_path(rel: &Vec<String>, name: &String) -> (r: String)
    ensures
        r@ == link_spec(string_views(rel@), name@),
{
    let mut all = rel.clone();
    assert(all@ == rel@);
    all.push(name.clone());
    let ghost segs = string_views(all@);
    assert(segs == string_views(rel@).push(name@));
    let ghost enc = encode_all(segs);
    let mut out = String::from_str("/");
    proof {
        reveal_strlit("/");
    }
    let ghost start = out@;
    let mut i: usize = 0;
    assert(enc.subrange(0, 0) == Seq::<Seq<char>>::empty());
    while i < all.len()
        invariant
            segs == string_views(all@),
            enc == encode_all(segs),
            start == seq!['/'],
            i <= all.len(),
            out@ == start + join_spec(enc.subrange(0, i as int)),
        decreases all.len() - i,
    {
        let seg = &all[i];
        assert(seg@ == segs[i as int]);
        assert(enc.subrange(0, i + 1).drop_last() == enc.subrange(0, i as int));
        assert(enc.subrange(0, i + 1).last() == encode_spec(seg@));
        if i > 0 {
            out.append("/");
            proof {
                reveal_strlit("/");
            }
        } else {
            assert(enc.subrange(0, 1)[0] == enc[0]);
        }
        let e = encode_segment(seg.as_str());
        out.append(e.as_str());
        i = i + 1;
    }
    assert(enc.subrange(0, all.len() as int) == enc);
    out
}

fn push_item(out: &mut String, rel: &Vec<String>, e: &DirEntry)
    ensures
        final(out)@ == old(out)@ + item_spec(string_views(rel@), *e),
{
    out.append("<li>");
    if e.is_dir {
        out.append("📁");
    } else {
        out.append("📄");
    }
    out.append(" <a href=\"");
    let link = link_path(rel, &e.name);
    out.append(link.as_str());
    out.append("\">");
    let text = escape_html(e.name.as_str());
    out.append(text.as_str());
    out.append("</a>");
    if !e.is_dir {
        out.append("  - ");
        let digits = decimal(e.size);
        out.append(digits.as_str());
        out.append(" bytes");
    }
    out.append("</li>");
}

/// Renders the index page of a directory whose normalized segments under the
/// root are `rel` and whose immediate children are `entries`.
pub fn render_listing(rel: &Vec<String>, entries: &Vec<DirEntry>) -> (r: String)
    ensures
        r@ == listing_spec(string_views(rel@), entries@),
{
    let ghost rv = string_views(rel@);
    let mut out = String::from_str("<html><body><ul>");
    let mut i: usize = 0;
    assert(entries@.subrange(0, 0) == Seq::<DirEntry>::empty());
    while i < entries.len()
        invariant
            rv == string_views(rel@),
            i <= entries.len(),
            out@ == "<html><body><ul>"@ + items_spec(rv, entries@.subrange(0, i as int)),
        decreases entries.len() - i,
    {
        assert(entries@.subrange(0, i + 1).drop_last() == entries@.subrange(0, i as int));
        push_item(&mut out, rel, &entries[i]);
        i = i + 1;
    }
    assert(entries@.subrange(0, entries.len() as int) == entries@);
    out.append("</ul></body></html>");
    out
}

proof fn lemma_split_plain_suffix(a: Seq<char>, b: Seq<char>)
    requires
        !b.contains('/'),
    ensures
        split_spec(a + b) == split_spec(a).update(
            split_spec(a).len() - 1,
            split_spec(a).last() + b,
        ),
    decreases b.len(),
{
    reveal_with_fuel(split_spec, 2);
    if b.len() == 0 {
        lemma_split_no_slash(a);
        assert(a + b == a);
        assert(split_spec(a).last() + b == split_spec(a).last());
        assert(split_spec(a).update(split_spec(a).len() - 1, split_spec(a).last()) == split_spec(a));
    } else {
        let b0 = b.drop_last();
        assert(!b0.contains('/')) by {
            assert forall|k: int| 0 <= k < b0.len() implies b0[k] != '/' by {
                assert(b0[k] == b[k]);
            }
        }
        lemma_split_plain_suffix(a, b0);
        assert((a + b).drop_last() == a + b0);
        assert((a + b).last() == b.last());
        assert(b.last() != '/') by {
            assert(b[b.len() - 1] == b.last());
        }
        lemma_split_no_slash(a);
        lemma_split_no_slash(a + b0);
        let sa = split_spec(a);
        let l = sa.len() - 1;
        let t = sa.update(l, sa.last() + b0);
        assert(t.last() == sa.last() + b0);
        assert((sa.last() + b0).push(b.last()) == sa.last() + b);
        assert(t.update(l, t.last().push(b.last())) == sa.update(l, sa.last() + b));
    }
}

proof fn lemma_split_sep_name(a: Seq<char>, b: Seq<char>)
    requires
        !b.contains('/'),
    ensures
        split_spec(a + seq!['/'] + b) == split_spec(a).push(b),
{
    let a1 = a + seq!['/'];
    assert(a1.drop_last() == a);
    assert(split_spec(a1) == split_spec(a).push(Seq::<char>::empty()));
    lemma_split_plain_suffix(a1, b);
    assert(Seq::<char>::empty() + b == b);
    assert(split_spec(a1).update(split_spec(a1).len() - 1, split_spec(a1).last() + b)
        == split_spec(a).push(b));
}

proof fn lemma_split_link(segs: Seq<Seq<char>>)
    requires
        segs.len() > 0,
        forall|i: int| 0 <= i < segs.len() ==> is_name(#[trigger] segs[i]),
    ensures
        split_spec(seq!['/'] + join_spec(segs)) == seq![Seq::<char>::empty()] + segs,
    decreases segs.len(),
{
    let e = Seq::<char>::empty();
    assert(is_name(segs[segs.len() - 1]));
    if segs.len() == 1 {
        assert(seq!['/'] + join_spec(segs) == e + seq!['/'] + segs[0]);
        lemma_split_sep_name(e, segs[0]);
        assert(split_spec(e) == seq![e]);
        assert(seq![e].push(segs[0]) == seq![e] + segs);
    } else {
        let init = segs.drop_last();
        assert forall|i: int| 0 <= i < init.len() implies is_name(#[trigger] init[i]) by {
            assert(init[i] == segs[i]);
        }
        lemma_split_link(init);
        let a = seq!['/'] + join_spec(init);
        assert(seq!['/'] + join_spec(segs) == a + seq!['/'] + segs.last());
        lemma_split_sep_name(a, segs.last());
        assert((seq![e] + init).push(segs.last()) == seq![e] + segs);
    }
}

proof fn lemma_normalize_rooted(segs: Seq<Seq<char>>)
    requires
        forall|i: int| 0 <= i < segs.len() ==> is_name(#[trigger] segs[i]),
    ensures
        normalize_spec(seq![Seq::<char>::empty()] + segs) == Some(segs),
    decreases segs.len(),
{
    let e = Seq::<char>::empty();
    if segs.len() == 0 {
        assert(segs == Seq::<Seq<char>>::empty());
        assert(seq![e] + segs == seq![e]);
        assert(seq![e].drop_last() == Seq::<Seq<char>>::empty());
        assert(normalize_spec(Seq::<Seq<char>>::empty()) == Some(segs));
    } else {
        let init = segs.drop_last();
        assert forall|i: int| 0 <= i < init.len() implies is_name(#[trigger] init[i]) by {
            assert(init[i] == segs[i]);
        }
        lemma_normalize_rooted(init);
        assert((seq![e] + segs).drop_last() == seq![e] + init);
        assert((seq![e] + segs).last() == segs.last());
        assert(is_name(segs[segs.len() - 1]));
        assert(init.push(segs.last()) == segs);
        assert(normalize_spec(seq![e] + init) == Some(init));
    }
}

proof fn lemma_decode_join(segs: Seq<Seq<char>>, rest: Seq<char>)
    ensures
        decode_spec(join_spec(encode_all(segs)) + rest) == join_spec(segs) + decode_spec(rest),
    decreases segs.len(),
{
    let enc = encode_all(segs);
    if segs.len() == 0 {
        assert(join_spec(enc) + rest == rest);
        assert(join_spec(segs) + decode_spec(rest) == decode_spec(rest));
    } else if segs.len() == 1 {
        lemma_decode_encode(segs[0], rest);
    } else {
        let init = segs.drop_last();
        let last = segs.last();
        assert(enc.drop_last() == encode_all(init));
        let tail = seq!['/'] + encode_spec(last) + rest;
        lemma_decode_join(init, tail);
        assert(join_spec(enc) + rest == join_spec(encode_all(init)) + tail);
        assert(tail.drop_first() == encode_spec(last) + rest);
        lemma_decode_encode(last, rest);
        assert(decode_spec(tail) == seq!['/'] + (last + decode_spec(rest)));
        assert(join_spec(init) + (seq!['/'] + (last + decode_spec(rest))) == join_spec(segs)
            + decode_spec(rest));
    }
}

proof fn lemma_rooted_join_resolves(segs: Seq<Seq<char>>)
    requires
        segs.len() > 0,
        forall|i: int| 0 <= i < segs.len() ==> is_name(#[trigger] segs[i]),
    ensures
        request_segments(seq!['/'] + join_spec(segs)) == Some(segs),
{
    lemma_split_link(segs);
    lemma_normalize_rooted(segs);
}

/// Following a rendered link leads back to the entry: when the listed
/// directory was reached by a request that resolved to `rel`, the link of
/// its child `name`, once percent-decoded as a server does, resolves to
/// `rel` followed by `name`.
pub proof fn lemma_link_round_trip(request: Seq<char>, rel: Seq<Seq<char>>, name: Seq<char>)
    requires
        request_segments(request) == Some(rel),
        is_name(name),
    ensures
        decode_spec(link_spec(rel, name)) == seq!['/'] + join_spec(rel.push(name)),
        request_segments(decode_spec(link_spec(rel, name))) == Some(rel.push(name)),
{
    lemma_resolved_names(request);
    let segs = rel.push(name);
    assert forall|i: int| 0 <= i < segs.len() implies is_name(#[trigger] segs[i]) by {
        if i < rel.len() {
            assert(segs[i] == rel[i]);
            assert(is_name(request_segments(request)->Some_0[i]));
        } else {
            assert(segs[i] == name);
        }
    }
    let link = link_spec(rel, name);
    let j = join_spec(encode_all(segs));
    lemma_decode_join(segs, Seq::<char>::empty());
    assert(j + Seq::<char>::empty() == j);
    assert(link.drop_first() == j);
    assert(decode_spec(link) == seq!['/'] + decode_spec(j));
    assert(join_spec(segs) + Seq::<char>::empty() == join_spec(segs));
    lemma_rooted_join_resolves(segs);
}

proof fn lemma_items_prefix(rel: Seq<Seq<char>>, entries: Seq<DirEntry>, j: int)
    requires
        0 <= j <= entries.len(),
    ensures
        items_spec(rel, entries).subrange(0, items_spec(rel, entries.subrange(0, j)).len() as int)
            == items_spec(rel, entries.subrange(0, j)),
        items_spec(rel, entries.subrange(0, j)).len() <= items_spec(rel, entries).len(),
    decreases entries.len() - j,
{
    if j == entries.len() {
        assert(entries.subrange(0, j) == entries);
    } else {
        lemma_items_prefix(rel, entries, j + 1);
        assert(entries.subrange(0, j + 1).drop_last() == entries.subrange(0, j));
        let short = items_spec(rel, entries.subrange(0, j));
        let long = items_spec(rel, entries.subrange(0, j + 1));
        assert(long.subrange(0, short.len() as int) == short);
        assert(items_spec(rel, entries).subrange(0, short.len() as int) == long.subrange(
            0,
            short.len() as int,
        ));
    }
}

/// The index page holds, for each entry, its list item with the rooted link
/// to it, and the items stand in the order of the entries.
pub proof fn lemma_listing_holds_entry(rel: Seq<Seq<char>>, entries: Seq<DirEntry>, i: int)
    requires
        0 <= i < entries.len(),
    ensures
        ({
            let page = listing_spec(rel, entries);
            let item = item_spec(rel, entries[i]);
            let k = "<html><body><ul>"@.len() + items_spec(rel, entries.subrange(0, i)).len();
            (k + item.len()) as int <= page.len() && page.subrange(k as int, (k + item.len()) as int) == item
        }),
{
    lemma_items_prefix(rel, entries, i + 1);
    assert(entries.subrange(0, i + 1).drop_last() == entries.subrange(0, i));
    assert(entries.subrange(0, i + 1).last() == entries[i]);
    let head = "<html><body><ul>"@;
    let before = items_spec(rel, entries.subrange(0, i));
    let item = item_spec(rel, entries[i]);
    let all = items_spec(rel, entries);
    let page = listing_spec(rel, entries);
    assert(all.subrange(before.len() as int, (before.len() + item.len()) as int) == item) by {
        let upto = items_spec(rel, entries.subrange(0, i + 1));
        assert(upto == before + item);
        assert(all.subrange(0, upto.len() as int) == upto);
        assert forall|t: int| 0 <= t < item.len() implies all.subrange(
            before.len() as int,
            (before.len() + item.len()) as int,
        )[t] == item[t] by {
            assert(all[before.len() + t] == all.subrange(0, upto.len() as int)[before.len() + t]);
            assert(upto[before.len() + t] == item[t]);
        }
    }
    let k = head.len() + before.len();
    assert(page.subrange(k as int, (k + item.len()) as int) == item) by {
        assert forall|t: int| 0 <= t < item.len() implies page.subrange(k as int, (k + item.len()) as int)[t]
            == item[t] by {
            assert(page[k + t] == all[before.len() + t]);
            assert(all.subrange(before.len() as int, (before.len() + item.len()) as int)[t] == item[t]);
        }
    }
}

} // verus!
