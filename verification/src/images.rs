//! What becomes of images that occur more than once: one file for all of them,
//! and one name for it in the markdown.
use crate::text;
use crate::types::{ExtractedImage, ParsedPage};
use vstd::prelude::*;

verus! {

/// The last of the first `n` images with a given id.
pub open spec fn last_with_id(images: Seq<ExtractedImage>, id: Seq<char>, n: int) -> Option<int>
    decreases n,
{
    if n <= 0 {
        None
    } else if images[n - 1].id@ == id {
        Some(n - 1)
    } else {
        last_with_id(images, id, n - 1)
    }
}

/// How markdown refers to the file `name`.
pub open spec fn reference(name: Seq<char>) -> Seq<char> {
    "![]("@ + name + ")"@
}

/// How markdown refers to an image by its id and its format.
pub open spec fn placed_reference(id: Seq<char>, format: Seq<char>) -> Seq<char> {
    "![](img_"@ + id + "."@ + format + ")"@
}

/// What the references to the `i`th image become, where it repeats another one.
pub open spec fn renaming(images: Seq<ExtractedImage>, i: int) -> Option<(Seq<char>, Seq<char>)> {
    match images[i].duplicate_of {
        Some(original) => match last_with_id(images, original@, images.len() as int) {
            Some(k) => Some(
                (placed_reference(images[i].id@, images[i].format@), reference(images[k].name@)),
            ),
            None => None,
        },
        None => None,
    }
}

/// What the references to the first `n` images become.
pub open spec fn renamings(images: Seq<ExtractedImage>, n: int) -> Seq<(Seq<char>, Seq<char>)>
    decreases n,
{
    if n <= 0 {
        seq![]
    } else {
        match renaming(images, n - 1) {
            Some(r) => renamings(images, n - 1).push(r),
            None => renamings(images, n - 1),
        }
    }
}

/// A text with the first `n` renamings applied, one after the other.
pub open spec fn renamed(s: Seq<char>, all: Seq<(Seq<char>, Seq<char>)>, n: int) -> Seq<char>
    decreases n,
{
    if n <= 0 {
        s
    } else {
        text::replaced(renamed(s, all, n - 1), all[n - 1].0, all[n - 1].1)
    }
}

/// A text in which images that repeat others go by the others' names.
pub open spec fn canonical(s: Seq<char>, images: Seq<ExtractedImage>) -> Seq<char> {
    let all = renamings(images, images.len() as int);
    renamed(s, all, all.len() as int)
}

fn find_last(images: &Vec<ExtractedImage>, id: &String) -> (r: Option<usize>)
    ensures
        match r {
            Some(k) => last_with_id(images@, id@, images@.len() as int) == Some(k as int) && k
                < images@.len(),
            None => last_with_id(images@, id@, images@.len() as int) is None,
        },
{
    let mut n: usize = images.len();
    while n > 0
        invariant
            n <= images@.len(),
            last_with_id(images@, id@, images@.len() as int) == last_with_id(
                images@,
                id@,
                n as int,
            ),
        decreases n,
    {
        if images[n - 1].id == *id {
            return Some(n - 1);
        }
        n -= 1;
    }
    None
}

/// The contents of a list of pairs of texts.
pub open spec fn pair_texts(v: Seq<(String, String)>) -> Seq<(Seq<char>, Seq<char>)> {
    v.map_values(|p: (String, String)| (p.0@, p.1@))
}

fn find_renamings(images: &Vec<ExtractedImage>) -> (r: Vec<(String, String)>)
    ensures
        pair_texts(r@) == renamings(images@, images@.len() as int),
{
    let mut out: Vec<(String, String)> = Vec::new();
    let mut i: usize = 0;
    assert(pair_texts(out@) =~= renamings(images@, 0));
    while i < images.len()
        invariant
            i <= images@.len(),
            pair_texts(out@) == renamings(images@, i as int),
        decreases images@.len() - i,
    {
        let image = &images[i];
        let ghost before = out@;
        if let Some(original) = &image.duplicate_of {
            if let Some(k) = find_last(images, original) {
                let mut from = String::new();
                text::push_text(&mut from, "![](img_");
                text::push_text(&mut from, image.id.as_str());
                text::push_text(&mut from, ".");
                text::push_text(&mut from, image.format.as_str());
                text::push_text(&mut from, ")");
                let mut to = String::new();
                text::push_text(&mut to, "![](");
                text::push_text(&mut to, images[k].name.as_str());
                text::push_text(&mut to, ")");
                assert(from@ =~= placed_reference(image.id@, image.format@));
                assert(to@ =~= reference(images@[k as int].name@));
                out.push((from, to));
                assert(pair_texts(out@) =~= pair_texts(before).push((from@, to@)));
            }
        }
        i += 1;
    }
    out
}

fn apply_renamings(s: &String, all: &Vec<(String, String)>) -> (r: String)
    ensures
        r@ == renamed(s@, pair_texts(all@), all@.len() as int),
{
    let mut out = s.clone();
    let mut i: usize = 0;
    while i < all.len()
        invariant
            i <= all@.len(),
            out@ == renamed(s@, pair_texts(all@), i as int),
        decreases all@.len() - i,
    {
        out = text::replace_all(out.as_str(), all[i].0.as_str(), all[i].1.as_str());
        i += 1;
    }
    out
}

/// Whether `after` is `before` with another markdown.
pub open spec fn page_with_markdown(before: ParsedPage, after: ParsedPage, md: Seq<char>) -> bool {
    &&& after.markdown@ == md
    &&& after == (ParsedPage { markdown: after.markdown, ..before })
}

/// Points the figure references of images that repeat others at the others'
/// files, in every page's markdown and in the whole text. Only the original is
/// written to disk, so no other file can be referred to.
pub fn rewrite_duplicate_image_refs(
    pages: &mut Vec<ParsedPage>,
    full_text: &mut String,
    images: &Vec<ExtractedImage>,
)
    ensures
        final(full_text)@ == canonical(old(full_text)@, images@),
        final(pages)@.len() == old(pages)@.len(),
        forall|p: int|
            0 <= p < old(pages)@.len() ==> page_with_markdown(
                old(pages)@[p],
                #[trigger] final(pages)@[p],
                canonical(old(pages)@[p].markdown@, images@),
            ),
{
    let all = find_renamings(images);
    let mut p: usize = 0;
    let n: usize = pages.len();
    while p < n
        invariant
            p <= n,
            n == pages@.len(),
            pages@.len() == old(pages)@.len(),
            pair_texts(all@) == renamings(images@, images@.len() as int),
            forall|q: int|
                0 <= q < p ==> page_with_markdown(
                    old(pages)@[q],
                    #[trigger] pages@[q],
                    canonical(old(pages)@[q].markdown@, images@),
                ),
            forall|q: int| p <= q < n ==> #[trigger] pages@[q] == old(pages)@[q],
        decreases n - p,
    {
        let ghost before = pages@;
        let md = apply_renamings(&pages[p].markdown, &all);
        assert(pages@[p as int] == old(pages)@[p as int]);
        pages[p].markdown = md;
        assert(pages@[p as int] == (ParsedPage { markdown: md, ..before[p as int] }));
        p += 1;
    }
    let done = apply_renamings(full_text, &all);
    *full_text = done;
}

/// Whether `part` stands somewhere in `s`.
pub open spec fn occurs(s: Seq<char>, part: Seq<char>) -> bool {
    exists|i: int|
        0 <= i && i + part.len() <= s.len() && #[trigger] s.subrange(i, i + part.len()) == part
}

proof fn lemma_replacing_nothing(s: Seq<char>, from: Seq<char>, to: Seq<char>)
    requires
        !occurs(s, from),
    ensures
        text::replaced(s, from, to) == s,
    decreases s.len(),
{
    if from.len() > 0 && s.len() >= from.len() {
        let m = from.len() as int;
        assert(s.take(m) =~= s.subrange(0, 0 + m));
        let rest = s.skip(1);
        assert(!occurs(rest, from)) by {
            if occurs(rest, from) {
                let i = choose|i: int|
                    0 <= i && i + m <= rest.len() && #[trigger] rest.subrange(i, i + m) == from;
                assert(s.subrange(i + 1, i + 1 + m) =~= rest.subrange(i, i + m));
            }
        }
        lemma_replacing_nothing(rest, from, to);
        assert(seq![s[0]] + rest =~= s);
    }
}

proof fn lemma_renaming_nothing(s: Seq<char>, all: Seq<(Seq<char>, Seq<char>)>, n: int)
    requires
        0 <= n <= all.len(),
        forall|k: int| 0 <= k < all.len() ==> !occurs(s, (#[trigger] all[k]).0),
    ensures
        renamed(s, all, n) == s,
    decreases n,
{
    if n > 0 {
        lemma_renaming_nothing(s, all, n - 1);
        lemma_replacing_nothing(s, all[n - 1].0, all[n - 1].1);
    }
}

/// A text without a reference to an image that repeats another one stays as it
/// is.
pub proof fn other_text_is_untouched(s: Seq<char>, images: Seq<ExtractedImage>)
    requires
        forall|k: int|
            0 <= k < renamings(images, images.len() as int).len() ==> !occurs(
                s,
                (#[trigger] renamings(images, images.len() as int)[k]).0,
            ),
    ensures
        canonical(s, images) == s,
{
    let all = renamings(images, images.len() as int);
    lemma_renaming_nothing(s, all, all.len() as int);
}

/// Whether a text has the shape of a reference: it begins with the only `!` in it
/// and ends with the only `)` in it.
pub open spec fn is_reference(p: Seq<char>) -> bool {
    &&& p.len() >= 2
    &&& p[0] == '!'
    &&& p.last() == ')'
    &&& forall|k: int| 0 < k < p.len() ==> #[trigger] p[k] != '!'
    &&& forall|k: int| 0 <= k < p.len() - 1 ==> #[trigger] p[k] != ')'
}

/// What stands in a text with references replaced, up to the first `!`, stood
/// there before.
proof fn lemma_clean_prefix(s: Seq<char>, from: Seq<char>, to: Seq<char>, n: int)
    requires
        is_reference(to),
        0 <= n <= text::replaced(s, from, to).len(),
        forall|k: int| 0 <= k < n ==> #[trigger] text::replaced(s, from, to)[k] != '!',
    ensures
        n <= s.len(),
        forall|k: int| 0 <= k < n ==> #[trigger] text::replaced(s, from, to)[k] == s[k],
    decreases s.len(),
{
    let out = text::replaced(s, from, to);
    if n > 0 && from.len() > 0 && s.len() >= from.len() {
        if s.take(from.len() as int) == from {
            assert(out[0] == to[0]);
        } else {
            let rest = text::replaced(s.skip(1), from, to);
            assert(out == seq![s[0]] + rest);
            assert forall|k: int| 0 <= k < n - 1 implies #[trigger] rest[k] != '!' by {
                assert(out[k + 1] == rest[k]);
            }
            lemma_clean_prefix(s.skip(1), from, to, n - 1);
            assert forall|k: int| 0 <= k < n implies #[trigger] out[k] == s[k] by {
                if k > 0 {
                    assert(out[k] == rest[k - 1]);
                    assert(rest[k - 1] == s.skip(1)[k - 1]);
                }
            }
        }
    }
}

/// What stands in the rest of a text stands in the text.
proof fn lemma_occurs_later(s: Seq<char>, n: int, pat: Seq<char>)
    requires
        0 <= n <= s.len(),
        occurs(s.skip(n), pat),
    ensures
        occurs(s, pat),
{
    let rest = s.skip(n);
    let m = pat.len() as int;
    let p = choose|p: int| 0 <= p && p + m <= rest.len() && #[trigger] rest.subrange(p, p + m)
        == pat;
    assert(s.subrange(p + n, p + n + m) =~= rest.subrange(p, p + m));
}

/// A reference in front of a text makes no other one.
proof fn lemma_not_in_front(to: Seq<char>, rest: Seq<char>, pat: Seq<char>)
    requires
        is_reference(to),
        is_reference(pat),
        to != pat,
        !occurs(rest, pat),
    ensures
        !occurs(to + rest, pat),
{
    let out = to + rest;
    let m = pat.len() as int;
    if occurs(out, pat) {
        let p = choose|p: int| 0 <= p && p + m <= out.len() && #[trigger] out.subrange(p, p + m)
            == pat;
        let here = out.subrange(p, p + m);
        assert(here[0] == out[p]);
        if p >= to.len() {
            assert(rest.subrange(p - to.len(), p - to.len() + m) =~= here);
        } else {
            assert(to[p] == '!');
            assert(p == 0);
            if m < to.len() {
                assert(here[m - 1] == to[m - 1]);
            } else if m > to.len() {
                assert(here[to.len() - 1] == to[to.len() - 1]);
                assert(pat[to.len() - 1] != ')');
            } else {
                assert(to =~= here);
            }
        }
    }
}

/// A character that is kept in front of a text with references replaced makes no
/// reference that did not stand there before.
proof fn lemma_not_round_a_kept_one(s: Seq<char>, from: Seq<char>, to: Seq<char>, pat: Seq<char>)
    requires
        s.len() > 0,
        is_reference(to),
        is_reference(pat),
        !occurs(text::replaced(s.skip(1), from, to), pat),
        pat.len() <= s.len() ==> s.subrange(0, pat.len() as int) != pat,
    ensures
        !occurs(seq![s[0]] + text::replaced(s.skip(1), from, to), pat),
{
    let tail = s.skip(1);
    let rest = text::replaced(tail, from, to);
    let out = seq![s[0]] + rest;
    let m = pat.len() as int;
    if occurs(out, pat) {
        let p = choose|p: int| 0 <= p && p + m <= out.len() && #[trigger] out.subrange(p, p + m)
            == pat;
        let here = out.subrange(p, p + m);
        if p > 0 {
            assert(rest.subrange(p - 1, p - 1 + m) =~= here);
        } else {
            assert forall|k: int| 0 <= k < m - 1 implies #[trigger] rest[k] != '!' by {
                assert(here[k + 1] == rest[k]);
            }
            lemma_clean_prefix(tail, from, to, m - 1);
            assert forall|k: int| 0 <= k < m implies s[k] == #[trigger] pat[k] by {
                assert(here[k] == out[k]);
                if k > 0 {
                    assert(out[k] == rest[k - 1]);
                    assert(rest[k - 1] == tail[k - 1]);
                }
            }
            assert(s.subrange(0, m) =~= pat);
        }
    }
}

/// Replacing a reference by another makes no third one: what did not stand in the
/// text, or was replaced, does not stand in it afterwards.
proof fn lemma_no_new_reference(s: Seq<char>, from: Seq<char>, to: Seq<char>, pat: Seq<char>)
    requires
        is_reference(from),
        is_reference(to),
        is_reference(pat),
        to != pat,
        pat == from || !occurs(s, pat),
    ensures
        !occurs(text::replaced(s, from, to), pat),
    decreases s.len(),
{
    let m = pat.len() as int;
    if s.len() >= from.len() {
        let whole = s.take(from.len() as int) == from;
        let n = if whole {
            from.len() as int
        } else {
            1
        };
        let tail = s.skip(n);
        if pat != from && occurs(tail, pat) {
            lemma_occurs_later(s, n, pat);
        }
        lemma_no_new_reference(tail, from, to, pat);
        if whole {
            lemma_not_in_front(to, text::replaced(tail, from, to), pat);
        } else {
            if m <= s.len() {
                assert(s.take(m) =~= s.subrange(0, 0 + m));
            }
            lemma_not_round_a_kept_one(s, from, to, pat);
        }
    }
}

proof fn lemma_none_left(s: Seq<char>, all: Seq<(Seq<char>, Seq<char>)>, n: int)
    requires
        0 <= n <= all.len(),
        forall|k: int|
            0 <= k < all.len() ==> is_reference((#[trigger] all[k]).0) && is_reference(all[k].1),
        forall|k: int, l: int|
            0 <= k < all.len() && 0 <= l < all.len() ==> (#[trigger] all[k]).1 != (
            #[trigger] all[l]).0,
    ensures
        forall|k: int| 0 <= k < n ==> !occurs(renamed(s, all, n), (#[trigger] all[k]).0),
    decreases n,
{
    if n > 0 {
        lemma_none_left(s, all, n - 1);
        let before = renamed(s, all, n - 1);
        assert forall|k: int| 0 <= k < n implies !occurs(
            renamed(s, all, n),
            (#[trigger] all[k]).0,
        ) by {
            lemma_no_new_reference(before, all[n - 1].0, all[n - 1].1, all[k].0);
        }
    }
}

/// Once images go by the names of those that they repeat, no reference to one
/// that repeats another is left, and doing it again changes nothing. References
/// have their usual shape for this, with no `!` or `)` in a name, and no image is
/// renamed to one that is itself renamed.
pub proof fn no_repeated_image_is_left(s: Seq<char>, images: Seq<ExtractedImage>)
    requires
        ({
            let all = renamings(images, images.len() as int);
            &&& forall|k: int|
                0 <= k < all.len() ==> is_reference((#[trigger] all[k]).0) && is_reference(
                    all[k].1,
                )
            &&& forall|k: int, l: int|
                0 <= k < all.len() && 0 <= l < all.len() ==> (#[trigger] all[k]).1 != (
                #[trigger] all[l]).0
        }),
    ensures
        forall|k: int|
            0 <= k < renamings(images, images.len() as int).len() ==> !occurs(
                canonical(s, images),
                (#[trigger] renamings(images, images.len() as int)[k]).0,
            ),
        canonical(canonical(s, images), images) == canonical(s, images),
{
    let all = renamings(images, images.len() as int);
    lemma_none_left(s, all, all.len() as int);
    other_text_is_untouched(canonical(s, images), images);
}

/// Where no image repeats another one, no text changes.
pub proof fn distinct_images_rename_nothing(s: Seq<char>, images: Seq<ExtractedImage>)
    requires
        forall|i: int| 0 <= i < images.len() ==> (#[trigger] images[i]).duplicate_of is None,
    ensures
        canonical(s, images) == s,
{
    lemma_no_renamings(images, images.len() as int);
}

proof fn lemma_no_renamings(images: Seq<ExtractedImage>, n: int)
    requires
        0 <= n <= images.len(),
        forall|i: int| 0 <= i < images.len() ==> (#[trigger] images[i]).duplicate_of is None,
    ensures
        renamings(images, n).len() == 0,
    decreases n,
{
    if n > 0 {
        lemma_no_renamings(images, n - 1);
        assert(images[n - 1].duplicate_of is None);
    }
}

// ── Files ──────────────────────────────────────────────────────────────

/// The last of the first `n` images that has a given id and a file of its own.
pub open spec fn file_of(images: Seq<ExtractedImage>, id: Seq<char>, n: int) -> Option<int>
    decreases n, 0int,
{
    if n <= 0 {
        None
    } else if images[n - 1].id@ == id && shared_file(images, n - 1) is None {
        Some(n - 1)
    } else {
        file_of(images, id, n - 1)
    }
}

/// The earlier image whose file the `i`th image shares; `None` where it has a
/// file of its own.
pub open spec fn shared_file(images: Seq<ExtractedImage>, i: int) -> Option<int>
    decreases i, 1int,
{
    match images[i].duplicate_of {
        Some(original) => file_of(images, original@, i),
        None => None,
    }
}

fn find_file(images: &Vec<ExtractedImage>, shares: &Vec<Option<usize>>, id: &String) -> (r: Option<
    usize,
>)
    requires
        shares@.len() <= images@.len(),
        forall|i: int|
            0 <= i < shares@.len() ==> (#[trigger] shares@[i]) == shared_index(images@, i),
    ensures
        match r {
            Some(k) => file_of(images@, id@, shares@.len() as int) == Some(k as int) && k
                < shares@.len(),
            None => file_of(images@, id@, shares@.len() as int) is None,
        },
{
    let mut n: usize = shares.len();
    while n > 0
        invariant
            n <= shares@.len() <= images@.len(),
            forall|i: int|
                0 <= i < shares@.len() ==> (#[trigger] shares@[i]) == shared_index(images@, i),
            file_of(images@, id@, shares@.len() as int) == file_of(images@, id@, n as int),
        decreases n,
    {
        let own = shares[n - 1].is_none();
        assert(shares@[n - 1] == shared_index(images@, n - 1));
        if images[n - 1].id == *id && own {
            return Some(n - 1);
        }
        n -= 1;
    }
    None
}

/// [`shared_file`] as a machine number.
pub open spec fn shared_index(images: Seq<ExtractedImage>, i: int) -> Option<usize> {
    match shared_file(images, i) {
        Some(k) => Some(k as usize),
        None => None,
    }
}

/// Which file each image goes by: its own, or that of an earlier image with the
/// same bytes. An image that claims to repeat one without a file gets its own.
pub fn plan_image_files(images: &Vec<ExtractedImage>) -> (r: Vec<Option<usize>>)
    ensures
        r@.len() == images@.len(),
        forall|i: int| 0 <= i < images@.len() ==> (#[trigger] r@[i]) == shared_index(images@, i),
{
    let mut shares: Vec<Option<usize>> = Vec::new();
    while shares.len() < images.len()
        invariant
            shares@.len() <= images@.len(),
            forall|i: int|
                0 <= i < shares@.len() ==> (#[trigger] shares@[i]) == shared_index(images@, i),
        decreases images@.len() - shares@.len(),
    {
        let i: usize = shares.len();
        let share = match &images[i].duplicate_of {
            Some(original) => find_file(images, &shares, original),
            None => None,
        };
        shares.push(share);
    }
    shares
}

/// Gives each image the path of the file that it goes by: `paths` holds, for
/// each image with a file of its own, where that file was written.
pub fn assign_image_paths(images: &mut Vec<ExtractedImage>, paths: &Vec<Option<String>>)
    requires
        paths@.len() == old(images)@.len(),
    ensures
        final(images)@.len() == old(images)@.len(),
        forall|i: int|
            0 <= i < old(images)@.len() ==> {
                let own = match shared_file(old(images)@, i) {
                    Some(k) => k,
                    None => i,
                };
                &&& (#[trigger] final(images)@[i]) == (ExtractedImage {
                    path: final(images)@[i].path,
                    ..old(images)@[i]
                })
                &&& match (final(images)@[i].path, paths@[own]) {
                    (Some(a), Some(b)) => a@ == b@,
                    (None, None) => true,
                    _ => false,
                }
            },
{
    let shares = plan_image_files(images);
    let ghost all = images@;
    let n: usize = images.len();
    let mut i: usize = 0;
    while i < n
        invariant
            i <= n,
            n == images@.len() == all.len() == paths@.len() == shares@.len(),
            forall|j: int| 0 <= j < n ==> (#[trigger] shares@[j]) == shared_index(all, j),
            forall|j: int|
                0 <= j < i ==> {
                    let own = match shared_file(all, j) {
                        Some(k) => k,
                        None => j,
                    };
                    &&& (#[trigger] images@[j]) == (ExtractedImage {
                        path: images@[j].path,
                        ..all[j]
                    })
                    &&& match (images@[j].path, paths@[own]) {
                        (Some(a), Some(b)) => a@ == b@,
                        (None, None) => true,
                        _ => false,
                    }
                },
            forall|j: int| i <= j < n ==> #[trigger] images@[j] == all[j],
        decreases n - i,
    {
        proof {
            lemma_shared_is_earlier(all, i as int);
        }
        assert(shares@[i as int] == shared_index(all, i as int));
        let own: usize = match shares[i] {
            Some(k) => k,
            None => i,
        };
        let path: Option<String> = match &paths[own] {
            Some(p) => Some(p.clone()),
            None => None,
        };
        assert(images@[i as int] == all[i as int]);
        images[i].path = path;
        i += 1;
    }
}

proof fn lemma_file_is_earlier(images: Seq<ExtractedImage>, id: Seq<char>, n: int)
    ensures
        file_of(images, id, n) matches Some(k) ==> 0 <= k < n && images[k].id@ == id
            && shared_file(images, k) is None,
    decreases n,
{
    if n > 0 {
        lemma_file_is_earlier(images, id, n - 1);
    }
}

proof fn lemma_shared_is_earlier(images: Seq<ExtractedImage>, i: int)
    ensures
        shared_file(images, i) matches Some(k) ==> 0 <= k < i,
{
    if let Some(original) = images[i].duplicate_of {
        lemma_file_is_earlier(images, original@, i);
    }
}

/// An image that shares a file shares that of an earlier image which it says it
/// repeats, and which has a file of its own: every path leads to a file.
pub proof fn shared_files_are_written(images: Seq<ExtractedImage>, i: int)
    requires
        0 <= i < images.len(),
    ensures
        shared_file(images, i) matches Some(k) ==> {
            &&& 0 <= k < i
            &&& shared_file(images, k) is None
            &&& images[i].duplicate_of matches Some(original) && images[k].id@ == original@
        },
{
    if let Some(original) = images[i].duplicate_of {
        lemma_file_is_earlier(images, original@, i);
    }
}

}
