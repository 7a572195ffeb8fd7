//! How many columns each page is set in.
use std::collections::HashMap;
use vstd::prelude::*;

verus! {

broadcast use vstd::std_specs::hash::group_hash_axioms;

/// What one section declares: how many body blocks it has, and in how many
/// columns they are set, where it says so.
#[derive(Debug, Clone, Copy, PartialEq, Eq, Structural)]
pub struct SectionColumns {
    pub blocks: usize,
    pub count: Option<u32>,
}

/// How many blocks the first `n` sections have together.
pub open spec fn blocks_before(sections: Seq<(usize, usize)>, n: int) -> int
    decreases n,
{
    if n <= 0 {
        0
    } else {
        blocks_before(sections, n - 1) + sections[n - 1].0
    }
}

/// Whether the block with the number `flat` belongs to section `s`.
pub open spec fn in_section(sections: Seq<(usize, usize)>, flat: usize, s: int) -> bool {
    &&& 0 <= s < sections.len()
    &&& blocks_before(sections, s) <= flat < blocks_before(sections, s + 1)
}

/// Whether a block that starts on `page` belongs to a section of `c` columns.
pub open spec fn declares(
    sections: Seq<(usize, usize)>,
    block_pages: Map<usize, usize>,
    page: int,
    c: usize,
) -> bool {
    exists|flat: usize, s: int|
        #![trigger in_section(sections, flat, s)]
        block_pages.contains_key(flat) && block_pages[flat] == page && in_section(
            sections,
            flat,
            s,
        ) && sections[s].1 == c
}

/// Whether `c` is the largest number of columns that a block starting on
/// `page` calls for; 0 where none does.
pub open spec fn is_declared(
    sections: Seq<(usize, usize)>,
    block_pages: Map<usize, usize>,
    page: int,
    c: usize,
) -> bool {
    &&& forall|d: usize| #[trigger] declares(sections, block_pages, page, d) ==> d <= c
    &&& c > 0 ==> declares(sections, block_pages, page, c)
}

/// The columns of a page: what is declared for it, or else what the page
/// before it has, and one where there is no such page.
pub open spec fn filled(raw: Seq<usize>, page: int) -> usize
    decreases page + 1,
{
    if page < 0 {
        1
    } else if raw[page] != 0 {
        raw[page]
    } else {
        filled(raw, page - 1)
    }
}

/// Whether `out` are the columns of the first `n_pages` pages, given what is
/// declared for each of them.
pub open spec fn filled_from(
    raw: Seq<usize>,
    out: Seq<usize>,
    sections: Seq<(usize, usize)>,
    block_pages: Map<usize, usize>,
    n_pages: int,
) -> bool {
    &&& raw.len() == n_pages
    &&& forall|p: int|
        0 <= p < n_pages ==> is_declared(sections, block_pages, p, #[trigger] raw[p])
    &&& out.len() == n_pages
    &&& forall|p: int| 0 <= p < n_pages ==> #[trigger] out[p] == filled(raw, p)
}

/// Whether `out` are the columns of the first `n_pages` pages.
pub open spec fn are_column_counts(
    out: Seq<usize>,
    sections: Seq<(usize, usize)>,
    block_pages: Map<usize, usize>,
    n_pages: int,
) -> bool {
    exists|raw: Seq<usize>| filled_from(raw, out, sections, block_pages, n_pages)
}

proof fn lemma_blocks_before_monotone(sections: Seq<(usize, usize)>, a: int, b: int)
    requires
        0 <= a <= b,
    ensures
        0 <= blocks_before(sections, a) <= blocks_before(sections, b),
    decreases b,
{
    if b > 0 {
        if a < b {
            lemma_blocks_before_monotone(sections, a, b - 1);
        } else {
            lemma_blocks_before_monotone(sections, a - 1, b - 1);
        }
    }
}

/// A block belongs to one section at the most.
pub proof fn block_has_one_section(
    sections: Seq<(usize, usize)>,
    flat: usize,
    s: int,
    t: int,
)
    requires
        in_section(sections, flat, s),
        in_section(sections, flat, t),
    ensures
        s == t,
{
    if s < t {
        lemma_blocks_before_monotone(sections, s + 1, t);
    }
    if t < s {
        lemma_blocks_before_monotone(sections, t + 1, s);
    }
}

/// The section that a block belongs to; the number of sections where there is
/// none.
fn section_of(sections: &Vec<(usize, usize)>, flat: usize) -> (s: usize)
    ensures
        s < sections@.len() ==> in_section(sections@, flat, s as int),
        s >= sections@.len() ==> forall|t: int| !#[trigger] in_section(sections@, flat, t),
        s <= sections@.len(),
{
    let mut end: u128 = 0;
    let mut s: usize = 0;
    while s < sections.len()
        invariant
            s <= sections@.len(),
            end == blocks_before(sections@, s as int),
            end <= flat,
        decreases sections@.len() - s,
    {
        let next: u128 = end + sections[s].0 as u128;
        if (flat as u128) < next {
            return s;
        }
        end = next;
        s += 1;
    }
    proof {
        assert forall|t: int| !#[trigger] in_section(sections@, flat, t) by {
            if 0 <= t < sections@.len() {
                lemma_blocks_before_monotone(sections@, t + 1, sections@.len() as int);
            }
        }
    }
    s
}

/// Whether `c` is the largest number of columns that one of some entries of a
/// map calls for on `page`.
spec fn is_declared_so_far(
    sections: Seq<(usize, usize)>,
    entries: Seq<(usize, usize)>,
    page: int,
    c: usize,
) -> bool {
    &&& forall|i: int, s: int|
        #![trigger entries[i], in_section(sections, entries[i].0, s)]
        0 <= i < entries.len() && entries[i].1 == page && in_section(sections, entries[i].0, s)
            ==> sections[s].1 <= c
    &&& c > 0 ==> exists|i: int, s: int|
        #![trigger entries[i], in_section(sections, entries[i].0, s)]
        0 <= i < entries.len() && entries[i].1 == page && in_section(sections, entries[i].0, s)
            && sections[s].1 == c
}

/// How many columns each page is set in. `sections` holds the number of blocks
/// and of columns of each section. A page that blocks of several sections
/// start on has the largest of their numbers; a page that none starts on has
/// the number of the page before it, and the first such pages have one.
pub fn column_counts_from_sections(
    sections: &Vec<(usize, usize)>,
    block_pages: &HashMap<usize, usize>,
    n_pages: usize,
) -> (r: Vec<usize>)
    ensures
        are_column_counts(r@, sections@, block_pages@, n_pages as int),
{
    let mut cols: Vec<usize> = Vec::new();
    let mut p: usize = 0;
    while p < n_pages
        invariant
            p <= n_pages,
            cols@.len() == p,
            forall|q: int| 0 <= q < p ==> #[trigger] cols@[q] == 0,
        decreases n_pages - p,
    {
        cols.push(0);
        p += 1;
    }
    let ghost mut entries: Seq<(usize, usize)> = seq![];
    for (k, v) in it: block_pages.iter()
        invariant
            cols@.len() == n_pages,
            forall|q: int|
                0 <= q < n_pages ==> is_declared_so_far(
                    sections@,
                    entries,
                    q,
                    #[trigger] cols@[q],
                ),
            forall|j: int|
                0 <= j < entries.len() ==> block_pages@.contains_key((#[trigger] entries[j]).0)
                    && block_pages@[entries[j].0] == entries[j].1,
            forall|i: int|
                0 <= i < it.seq().len() ==> block_pages@.contains_key(*(#[trigger] it.seq()[i]).0)
                    && block_pages@[*it.seq()[i].0] == *it.seq()[i].1,
            forall|b: usize| #[trigger]
                block_pages@.contains_key(b) ==> entries.contains((b, block_pages@[b])) || exists|
                    j: int,
                |
                    it.index() <= j < it.seq().len() && *(#[trigger] it.seq()[j]).0 == b,
    {
        let ghost n = it.index() as int;
        let ghost before = cols@;
        let ghost old_entries = entries;
        proof {
            assert(it.seq()[n] == (k, v));
            entries = entries.push((*k, *v));
            assert forall|b: usize| #[trigger] block_pages@.contains_key(b) implies entries.contains(
                (b, block_pages@[b]),
            ) || exists|j: int| n < j < it.seq().len() && *(#[trigger] it.seq()[j]).0 == b by {
                if old_entries.contains((b, block_pages@[b])) {
                    let j = choose|j: int|
                        0 <= j < old_entries.len() && old_entries[j] == (b, block_pages@[b]);
                    assert(entries[j] == (b, block_pages@[b]));
                } else {
                    let j = choose|j: int|
                        n <= j < it.seq().len() && *(#[trigger] it.seq()[j]).0 == b;
                    if j == n {
                        assert(entries[old_entries.len() as int] == (b, block_pages@[b]));
                    }
                }
            }
        }
        let s: usize = section_of(sections, *k);
        if *v < n_pages && s < sections.len() {
            let c: usize = sections[s].1;
            if c > cols[*v] {
                cols.set(*v, c);
            }
        }
        proof {
            let m = old_entries.len() as int;
            assert(entries[m] == (*k, *v));
            assert forall|q: int| 0 <= q < n_pages implies is_declared_so_far(
                sections@,
                entries,
                q,
                #[trigger] cols@[q],
            ) by {
                assert(is_declared_so_far(sections@, old_entries, q, before[q]));
                assert forall|i: int, t: int|
                    #![trigger entries[i], in_section(sections@, entries[i].0, t)]
                    0 <= i < entries.len() && entries[i].1 == q && in_section(
                        sections@,
                        entries[i].0,
                        t,
                    ) implies sections@[t].1 <= cols@[q] by {
                    if i == m {
                        assert(s < sections@.len());
                        block_has_one_section(sections@, *k, s as int, t);
                    } else {
                        assert(entries[i] == old_entries[i]);
                        assert(sections@[t].1 <= before[q]);
                    }
                }
                if cols@[q] > 0 {
                    if cols@[q] == before[q] {
                        let (i, t) = choose|i: int, t: int|
                            #![trigger old_entries[i], in_section(sections@, old_entries[i].0, t)]
                            0 <= i < old_entries.len() && old_entries[i].1 == q && in_section(
                                sections@,
                                old_entries[i].0,
                                t,
                            ) && sections@[t].1 == before[q];
                        assert(entries[i] == old_entries[i]);
                        assert(in_section(sections@, entries[i].0, t));
                    } else {
                        assert(in_section(sections@, entries[m].0, s as int));
                    }
                }
            }
        }
    }
    let ghost raw = cols@;
    proof {
        assert forall|q: int| 0 <= q < n_pages implies is_declared(
            sections@,
            block_pages@,
            q,
            #[trigger] raw[q],
        ) by {
            assert(is_declared_so_far(sections@, entries, q, raw[q]));
            assert forall|d: usize| #[trigger]
                declares(sections@, block_pages@, q, d) implies d <= raw[q] by {
                let (flat, s) = choose|flat: usize, s: int|
                    #![trigger in_section(sections@, flat, s)]
                    block_pages@.contains_key(flat) && block_pages@[flat] == q && in_section(
                        sections@,
                        flat,
                        s,
                    ) && sections@[s].1 == d;
                assert(entries.contains((flat, block_pages@[flat])));
                let i = choose|i: int|
                    0 <= i < entries.len() && entries[i] == (flat, block_pages@[flat]);
                assert(entries[i].0 == flat && entries[i].1 == q);
                assert(in_section(sections@, entries[i].0, s));
            }
            if raw[q] > 0 {
                let (i, s) = choose|i: int, s: int|
                    #![trigger entries[i], in_section(sections@, entries[i].0, s)]
                    0 <= i < entries.len() && entries[i].1 == q && in_section(
                        sections@,
                        entries[i].0,
                        s,
                    ) && sections@[s].1 == raw[q];
                assert(block_pages@.contains_key(entries[i].0));
                assert(in_section(sections@, entries[i].0, s));
            }
        }
    }
    let mut prev: usize = 1;
    let mut i: usize = 0;
    while i < n_pages
        invariant
            i <= n_pages,
            cols@.len() == n_pages,
            raw.len() == n_pages,
            prev == filled(raw, i - 1),
            forall|q: int| 0 <= q < i ==> #[trigger] cols@[q] == filled(raw, q),
            forall|q: int| i <= q < n_pages ==> #[trigger] cols@[q] == raw[q],
        decreases n_pages - i,
    {
        if cols[i] == 0 {
            cols.set(i, prev);
        } else {
            prev = cols[i];
        }
        i += 1;
    }
    assert(filled_from(raw, cols@, sections@, block_pages@, n_pages as int));
    cols
}

/// What the sections declare, one column where they say nothing or none.
pub open spec fn declared_columns(sections: Seq<SectionColumns>) -> Seq<(usize, usize)> {
    sections.map_values(
        |s: SectionColumns|
            (
                s.blocks,
                match s.count {
                    Some(c) => if c < 1 {
                        1usize
                    } else {
                        c as usize
                    },
                    None => 1usize,
                },
            ),
    )
}

/// How many columns each page is set in, from what the sections declare.
pub fn page_column_counts(
    sections: &Vec<SectionColumns>,
    block_pages: &HashMap<usize, usize>,
    n_pages: usize,
) -> (r: Vec<usize>)
    ensures
        are_column_counts(r@, declared_columns(sections@), block_pages@, n_pages as int),
{
    let mut declared: Vec<(usize, usize)> = Vec::new();
    let mut i: usize = 0;
    while i < sections.len()
        invariant
            i <= sections@.len(),
            declared@ == declared_columns(sections@).take(i as int),
        decreases sections@.len() - i,
    {
        let cols: usize = match sections[i].count {
            Some(c) => if c < 1 {
                1
            } else {
                c as usize
            },
            None => 1,
        };
        declared.push((sections[i].blocks, cols));
        assert(declared@ =~= declared_columns(sections@).take(i + 1));
        i += 1;
    }
    assert(declared@ =~= declared_columns(sections@));
    column_counts_from_sections(&declared, block_pages, n_pages)
}

/// Every page has a column at least.
pub proof fn every_page_has_a_column(
    out: Seq<usize>,
    sections: Seq<(usize, usize)>,
    block_pages: Map<usize, usize>,
    n_pages: int,
    p: int,
)
    requires
        are_column_counts(out, sections, block_pages, n_pages),
        0 <= p < n_pages,
    ensures
        out[p] >= 1,
{
    let raw = choose|raw: Seq<usize>| filled_from(raw, out, sections, block_pages, n_pages);
    lemma_filled_positive(raw, p);
}

proof fn lemma_filled_positive(raw: Seq<usize>, p: int)
    ensures
        filled(raw, p) >= 1,
    decreases p + 1,
{
    if p >= 0 && raw[p] == 0 {
        lemma_filled_positive(raw, p - 1);
    }
}

/// A page that no block starts on is set as the page before it.
pub proof fn continuation_page_inherits(
    out: Seq<usize>,
    sections: Seq<(usize, usize)>,
    block_pages: Map<usize, usize>,
    n_pages: int,
    p: int,
)
    requires
        are_column_counts(out, sections, block_pages, n_pages),
        0 <= p < n_pages,
        forall|flat: usize| #[trigger] block_pages.contains_key(flat) ==> block_pages[flat] != p,
    ensures
        out[p] == (if p == 0 {
            1
        } else {
            out[p - 1] as int
        }),
{
    let raw = choose|raw: Seq<usize>| filled_from(raw, out, sections, block_pages, n_pages);
    assert(is_declared(sections, block_pages, p, raw[p]));
    assert(raw[p] == 0);
    assert(out[p] == filled(raw, p));
    if p > 0 {
        assert(out[p - 1] == filled(raw, p - 1));
    } else {
        assert(filled(raw, -1) == 1);
    }
}

}
