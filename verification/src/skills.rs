//! The skills gallery: which catalogued skills are shown, in which order,
//! and which of them fall on the current page.
use vstd::prelude::*;
use crate::console::opt_view;
use crate::json::{field_in, json_string_field};
use crate::saves::str_opt_view;
use crate::sorting::{keyed, sort_by_text_key, sorted_by_key, TextKeyed};
use crate::text::{
    ends_with, has_suffix, string_of, trim_chars, trim_spec, owned, contains_text, chars_of, has_infix, lemma_seq_less_irreflexive, lemma_seq_less_total,
    lemma_seq_less_transitive, lowercase_text, seq_less, text_eq, text_less, to_lowercase,
};

verus! {

broadcast use vstd::string::group_string_axioms;

/// Skills shown on one page of the gallery.
pub const SKILLS_PER_PAGE: usize = 12;

/// What the gallery knows of a catalogued skill: its name and, when the
/// player owns it, the player's level in it.
pub struct SkillEntry {
    pub name: String,
    pub level: Option<i8>,
}

/// The gallery's controls.
pub struct GalleryFilter {
    /// Show only the skills the player owns (or is treated as owning).
    pub only_owned: bool,
    /// Developer build, developer controls shown, and "show all" on: every
    /// skill is treated as owned.
    pub show_all_active: bool,
    /// Text the lowercase name must contain; empty for no search.
    pub search: String,
    /// 0: name A-Z, 1: name Z-A, 2: level high-low, 3: level low-high; any
    /// other value keeps catalogue order.
    pub sort_mode: u8,
    /// The page shown, counted from 0.
    pub page: usize,
}

/// Whether the skill is treated as owned.
pub open spec fn treated_owned(f: GalleryFilter, e: SkillEntry) -> bool {
    f.show_all_active || e.level is Some
}

/// The level the gallery sorts by: the player's level, 0 when not owned.
pub open spec fn sort_level(e: SkillEntry) -> int {
    match e.level {
        Some(l) => l as int,
        None => 0,
    }
}

/// Whether the gallery shows the skill.
pub open spec fn shown(f: GalleryFilter, e: SkillEntry) -> bool {
    &&& (!f.only_owned || treated_owned(f, e))
    &&& (f.search@.len() == 0 || has_infix(lowercase_text(e.name@), lowercase_text(f.search@)))
}

/// Lowercase name first, then catalogue position.
pub open spec fn name_first(na: Seq<char>, nb: Seq<char>, a: int, b: int) -> bool {
    seq_less(na, nb) || (na == nb && a < b)
}

/// Whether the skill at catalogue position `a` comes before the one at `b`
/// in the gallery's order. Ties keep catalogue order, as a stable sort does.
pub open spec fn comes_before(mode: u8, es: Seq<SkillEntry>, a: int, b: int) -> bool {
    let na = lowercase_text(es[a].name@);
    let nb = lowercase_text(es[b].name@);
    let la = sort_level(es[a]);
    let lb = sort_level(es[b]);
    if mode == 0 {
        name_first(na, nb, a, b)
    } else if mode == 1 {
        seq_less(nb, na) || (na == nb && a < b)
    } else if mode == 2 {
        la > lb || (la == lb && name_first(na, nb, a, b))
    } else if mode == 3 {
        la < lb || (la == lb && name_first(na, nb, a, b))
    } else {
        a < b
    }
}

/// The order is strict.
proof fn lemma_before_irreflexive(mode: u8, es: Seq<SkillEntry>, a: int)
    ensures
        !comes_before(mode, es, a, a),
{
    lemma_seq_less_irreflexive(lowercase_text(es[a].name@));
}

proof fn lemma_name_first_transitive(na: Seq<char>, nb: Seq<char>, nc: Seq<char>, a: int, b: int, c: int)
    requires
        name_first(na, nb, a, b),
        name_first(nb, nc, b, c),
    ensures
        name_first(na, nc, a, c),
{
    if seq_less(na, nb) && seq_less(nb, nc) {
        lemma_seq_less_transitive(na, nb, nc);
    }
}

/// The order is transitive.
proof fn lemma_before_transitive(mode: u8, es: Seq<SkillEntry>, a: int, b: int, c: int)
    requires
        comes_before(mode, es, a, b),
        comes_before(mode, es, b, c),
    ensures
        comes_before(mode, es, a, c),
{
    let na = lowercase_text(es[a].name@);
    let nb = lowercase_text(es[b].name@);
    let nc = lowercase_text(es[c].name@);
    if mode == 1 {
        if seq_less(nb, na) && seq_less(nc, nb) {
            lemma_seq_less_transitive(nc, nb, na);
        }
    } else if mode == 0 || mode == 2 || mode == 3 {
        if name_first(na, nb, a, b) && name_first(nb, nc, b, c) {
            lemma_name_first_transitive(na, nb, nc, a, b, c);
        }
    }
}

/// Any two different skills are ordered one way or the other.
proof fn lemma_before_total(mode: u8, es: Seq<SkillEntry>, a: int, b: int)
    requires
        a != b,
    ensures
        comes_before(mode, es, a, b) || comes_before(mode, es, b, a),
{
    lemma_seq_less_total(lowercase_text(es[a].name@), lowercase_text(es[b].name@));
}

/// The positions listed are in the gallery's order, each before the next.
pub open spec fn in_gallery_order(mode: u8, es: Seq<SkillEntry>, s: Seq<usize>) -> bool {
    forall|i: int, j: int| 0 <= i < j < s.len() ==> comes_before(mode, es, #[trigger] s[i] as int, #[trigger] s[j] as int)
}

/// The positions listed are exactly those of the shown skills.
pub open spec fn lists_shown(f: GalleryFilter, es: Seq<SkillEntry>, s: Seq<usize>) -> bool {
    &&& forall|k: int| 0 <= k < s.len() ==> (#[trigger] s[k]) < es.len() && shown(f, es[s[k] as int])
    &&& forall|i: int| 0 <= i < es.len() && shown(f, #[trigger] es[i]) ==> s.contains(i as usize)
}

fn level_value(e: &SkillEntry) -> (r: i8)
    ensures
        r == sort_level(*e),
{
    match e.level {
        Some(l) => l,
        None => 0,
    }
}

/// Whether the skill at `a` comes before the one at `b`, given their
/// lowercase names.
fn before(mode: u8, ea: &SkillEntry, eb: &SkillEntry, na: &str, nb: &str, a: usize, b: usize) -> (r: bool)
    requires
        na@ == lowercase_text(ea.name@),
        nb@ == lowercase_text(eb.name@),
    ensures
        r == ({
            let la = sort_level(*ea);
            let lb = sort_level(*eb);
            if mode == 0 {
                name_first(na@, nb@, a as int, b as int)
            } else if mode == 1 {
                seq_less(nb@, na@) || (na@ == nb@ && a < b)
            } else if mode == 2 {
                la > lb || (la == lb && name_first(na@, nb@, a as int, b as int))
            } else if mode == 3 {
                la < lb || (la == lb && name_first(na@, nb@, a as int, b as int))
            } else {
                a < b
            }
        }),
{
    let name_order = text_less(na, nb) || (text_eq(na, nb) && a < b);
    let la = level_value(ea);
    let lb = level_value(eb);
    if mode == 0 {
        name_order
    } else if mode == 1 {
        text_less(nb, na) || (text_eq(na, nb) && a < b)
    } else if mode == 2 {
        la > lb || (la == lb && name_order)
    } else if mode == 3 {
        la < lb || (la == lb && name_order)
    } else {
        a < b
    }
}

/// The positions of the shown skills, in the gallery's order.
pub fn gallery_order(entries: &Vec<SkillEntry>, filter: &GalleryFilter) -> (r: Vec<usize>)
    ensures
        lists_shown(*filter, entries@, r@),
        in_gallery_order(filter.sort_mode, entries@, r@),
{
    let es = entries;
    let search = to_lowercase(filter.search.as_str());
    let search_empty = filter.search.unicode_len() == 0;
    let mut lowered: Vec<String> = Vec::new();
    let mut out: Vec<usize> = Vec::new();
    let mut i: usize = 0;
    while i < es.len()
        invariant
            i <= es@.len(),
            search@ == lowercase_text(filter.search@),
            search_empty == (filter.search@.len() == 0),
            lowered@.len() == i,
            forall|k: int| 0 <= k < i ==> (#[trigger] lowered@[k])@ == lowercase_text(es@[k].name@),
            forall|k: int| 0 <= k < out@.len() ==> (#[trigger] out@[k]) < i && shown(*filter, es@[out@[k] as int]),
            forall|j: int| 0 <= j < i && shown(*filter, #[trigger] es@[j]) ==> out@.contains(j as usize),
            in_gallery_order(filter.sort_mode, es@, out@),
        decreases es.len() - i,
    {
        let name = to_lowercase(es[i].name.as_str());
        let owned = filter.show_all_active || es[i].level.is_some();
        let matches = search_empty || contains_text(&chars_of(name.as_str()), search.as_str());
        let keep = (!filter.only_owned || owned) && matches;
        let ghost lowered_before = lowered@;
        lowered.push(name);
        proof {
            assert forall|k: int| 0 <= k < i + 1 implies (#[trigger] lowered@[k])@ == lowercase_text(es@[k].name@) by {
                if k < i {
                    assert(lowered@[k] == lowered_before[k]);
                }
            }
        }
        if keep {
            let mut p: usize = 0;
            while p < out.len() && !before(
                filter.sort_mode,
                &es[i],
                &es[out[p]],
                lowered[i].as_str(),
                lowered[out[p]].as_str(),
                i,
                out[p],
            )
                invariant
                    i < es@.len(),
                    lowered@.len() == i + 1,
                    forall|k: int| 0 <= k <= i ==> (#[trigger] lowered@[k])@ == lowercase_text(es@[k].name@),
                    forall|k: int| 0 <= k < out@.len() ==> (#[trigger] out@[k]) < i,
                    p <= out@.len(),
                    forall|k: int| 0 <= k < p ==> comes_before(filter.sort_mode, es@, #[trigger] out@[k] as int, i as int),
                decreases out.len() - p,
            {
                proof {
                    lemma_before_total(filter.sort_mode, es@, i as int, out@[p as int] as int);
                }
                p += 1;
            }
            let ghost old_out = out@;
            out.insert(p, i);
            proof {
                assert(out@ == old_out.insert(p as int, i));
                assert forall|a: int, b: int| 0 <= a < b < out@.len() implies comes_before(
                    filter.sort_mode,
                    es@,
                    #[trigger] out@[a] as int,
                    #[trigger] out@[b] as int,
                ) by {
                    if b < p {
                        assert(out@[a] == old_out[a] && out@[b] == old_out[b]);
                    } else if b == p {
                        assert(out@[a] == old_out[a]);
                    } else if a == p {
                        assert(out@[b] == old_out[b - 1]);
                        if b - 1 > p {
                            assert(comes_before(filter.sort_mode, es@, old_out[p as int] as int, old_out[b - 1] as int));
                            lemma_before_transitive(filter.sort_mode, es@, i as int, old_out[p as int] as int, old_out[b - 1] as int);
                        }
                    } else if a < p {
                        assert(out@[a] == old_out[a] && out@[b] == old_out[b - 1]);
                        if b - 1 > p {
                            assert(comes_before(filter.sort_mode, es@, old_out[p as int] as int, old_out[b - 1] as int));
                            lemma_before_transitive(filter.sort_mode, es@, i as int, old_out[p as int] as int, old_out[b - 1] as int);
                        }
                        lemma_before_transitive(filter.sort_mode, es@, old_out[a] as int, i as int, old_out[b - 1] as int);
                    } else {
                        assert(out@[a] == old_out[a - 1] && out@[b] == old_out[b - 1]);
                    }
                }
                assert forall|k: int| 0 <= k < out@.len() implies (#[trigger] out@[k]) < i + 1 && shown(*filter, es@[out@[k] as int]) by {
                    if k < p {
                        assert(out@[k] == old_out[k]);
                    } else if k > p {
                        assert(out@[k] == old_out[k - 1]);
                    }
                }
                assert forall|j: int| 0 <= j < i + 1 && shown(*filter, #[trigger] es@[j]) implies out@.contains(j as usize) by {
                    if j < i {
                        assert(old_out.contains(j as usize));
                        let k = choose|k: int| 0 <= k < old_out.len() && old_out[k] == j as usize;
                        if k < p {
                            assert(out@[k] == old_out[k]);
                        } else {
                            assert(out@[k + 1] == old_out[k]);
                        }
                    } else {
                        assert(out@[p as int] == i);
                    }
                }
            }
        } else {
            proof {
                assert forall|k: int| 0 <= k < out@.len() implies (#[trigger] out@[k]) < i + 1 && shown(*filter, es@[out@[k] as int]) by {}
            }
        }
        i += 1;
    }
    out
}

/// Two lists in the gallery's order with the same members are the same list.
proof fn lemma_ordered_lists_equal(mode: u8, es: Seq<SkillEntry>, s1: Seq<usize>, s2: Seq<usize>)
    requires
        in_gallery_order(mode, es, s1),
        in_gallery_order(mode, es, s2),
        forall|x: usize| s1.contains(x) <==> s2.contains(x),
    ensures
        s1 == s2,
    decreases s1.len() + s2.len(),
{
    if s1.len() == 0 {
        if s2.len() > 0 {
            assert(s2.contains(s2[0]));
        }
        assert(s1 =~= s2);
    } else if s2.len() == 0 {
        assert(s1.contains(s1[0]));
    } else {
        assert(s1.contains(s1[0]));
        assert(s2.contains(s2[0]));
        let k = choose|k: int| 0 <= k < s2.len() && s2[k] == s1[0];
        let j = choose|j: int| 0 <= j < s1.len() && s1[j] == s2[0];
        if s1[0] != s2[0] {
            assert(k > 0 && j > 0);
            assert(comes_before(mode, es, s2[0] as int, s2[k] as int));
            assert(comes_before(mode, es, s1[0] as int, s1[j] as int));
            lemma_before_transitive(mode, es, s1[0] as int, s2[0] as int, s1[0] as int);
            lemma_before_irreflexive(mode, es, s1[0] as int);
        }
        let t1 = s1.drop_first();
        let t2 = s2.drop_first();
        assert forall|x: usize| t1.contains(x) <==> t2.contains(x) by {
            if t1.contains(x) {
                let a = choose|a: int| 0 <= a < t1.len() && t1[a] == x;
                assert(s1[a + 1] == x);
                assert(s1.contains(x));
                if x == s1[0] {
                    assert(comes_before(mode, es, s1[0] as int, s1[a + 1] as int));
                    lemma_before_irreflexive(mode, es, x as int);
                }
                let b = choose|b: int| 0 <= b < s2.len() && s2[b] == x;
                assert(b != 0);
                assert(t2[b - 1] == x);
            }
            if t2.contains(x) {
                let a = choose|a: int| 0 <= a < t2.len() && t2[a] == x;
                assert(s2[a + 1] == x);
                assert(s2.contains(x));
                if x == s2[0] {
                    assert(comes_before(mode, es, s2[0] as int, s2[a + 1] as int));
                    lemma_before_irreflexive(mode, es, x as int);
                }
                let b = choose|b: int| 0 <= b < s1.len() && s1[b] == x;
                assert(b != 0);
                assert(t1[b - 1] == x);
            }
        }
        assert forall|a: int, b: int| 0 <= a < b < t1.len() implies comes_before(mode, es, #[trigger] t1[a] as int, #[trigger] t1[b] as int) by {
            assert(t1[a] == s1[a + 1] && t1[b] == s1[b + 1]);
        }
        assert forall|a: int, b: int| 0 <= a < b < t2.len() implies comes_before(mode, es, #[trigger] t2[a] as int, #[trigger] t2[b] as int) by {
            assert(t2[a] == s2[a + 1] && t2[b] == s2[b + 1]);
        }
        lemma_ordered_lists_equal(mode, es, t1, t2);
        assert(s1 =~= seq![s1[0]] + t1);
        assert(s2 =~= seq![s2[0]] + t2);
    }
}

/// The gallery's order is fully determined: any two lists of the shown
/// skills, each in the gallery's order, are the same list.
pub proof fn lemma_gallery_order_unique(f: GalleryFilter, es: Seq<SkillEntry>, s1: Seq<usize>, s2: Seq<usize>)
    requires
        lists_shown(f, es, s1),
        lists_shown(f, es, s2),
        in_gallery_order(f.sort_mode, es, s1),
        in_gallery_order(f.sort_mode, es, s2),
    ensures
        s1 == s2,
{
    assert forall|x: usize| s1.contains(x) <==> s2.contains(x) by {
        if s1.contains(x) {
            let k = choose|k: int| 0 <= k < s1.len() && s1[k] == x;
            assert(shown(f, es[s1[k] as int]));
            assert(shown(f, es[x as int]));
        }
        if s2.contains(x) {
            let k = choose|k: int| 0 <= k < s2.len() && s2[k] == x;
            assert(shown(f, es[s2[k] as int]));
            assert(shown(f, es[x as int]));
        }
    }
    lemma_ordered_lists_equal(f.sort_mode, es, s1, s2);
}

/// One page of the gallery.
pub struct GalleryPage {
    /// Catalogue positions of the skills on the page, in gallery order.
    pub items: Vec<usize>,
    /// How many skills the gallery shows over all pages.
    pub shown_count: usize,
    /// How many pages they fill.
    pub total_pages: usize,
}

/// The page's slice of a list of `len` entries: from `page * size` to
/// `(page + 1) * size`, both cut to `len`.
pub open spec fn page_start(len: int, page: int) -> int {
    vstd::math::min(page * SKILLS_PER_PAGE, len)
}

/// The end of the page's slice.
pub open spec fn page_end(len: int, page: int) -> int {
    vstd::math::min((page + 1) * SKILLS_PER_PAGE, len)
}

/// The gallery page `filter.page` shows: the shown skills in gallery order,
/// cut to that page, with the count of shown skills and of pages.
pub fn gallery_page(entries: &Vec<SkillEntry>, filter: &GalleryFilter) -> (r: GalleryPage)
    requires
        (filter.page + 1) * SKILLS_PER_PAGE <= usize::MAX,
    ensures
        exists|order: Seq<usize>|
            {
                &&& lists_shown(*filter, entries@, order)
                &&& in_gallery_order(filter.sort_mode, entries@, order)
                &&& r.shown_count == order.len()
                &&& r.total_pages == (order.len() + SKILLS_PER_PAGE - 1) / (SKILLS_PER_PAGE as int)
                &&& r.items@ == order.subrange(
                    page_start(order.len() as int, filter.page as int),
                    page_end(order.len() as int, filter.page as int),
                )
            },
{
    let order = gallery_order(entries, filter);
    let len = order.len();
    let start_raw = filter.page * SKILLS_PER_PAGE;
    let end_raw = (filter.page + 1) * SKILLS_PER_PAGE;
    let start = if start_raw < len { start_raw } else { len };
    let end = if end_raw < len { end_raw } else { len };
    let mut items: Vec<usize> = Vec::new();
    let mut k: usize = start;
    while k < end
        invariant
            start <= k <= end,
            end <= len == order@.len(),
            items@ == order@.subrange(start as int, k as int),
        decreases end - k,
    {
        items.push(order[k]);
        k += 1;
        assert(items@ =~= order@.subrange(start as int, k as int));
    }
    let total_pages = len / SKILLS_PER_PAGE + if len % SKILLS_PER_PAGE == 0 { 0 } else { 1 };
    proof {
        let l = len as int;
        assert(total_pages == (l + 11) / 12) by (nonlinear_arith)
            requires
                total_pages == l / 12 + if l % 12 == 0 { 0int } else { 1int },
                l >= 0,
        ;
    }
    GalleryPage { items, shown_count: len, total_pages }
}

/// The name shown for a sort mode; unknown modes show as the first.
pub open spec fn sort_mode_label_spec(mode: u8) -> Seq<char> {
    if mode == 1 {
        "Name (Z-A)"@
    } else if mode == 2 {
        "Level (High-Low)"@
    } else if mode == 3 {
        "Level (Low-High)"@
    } else {
        "Name (A-Z)"@
    }
}

/// The name shown for a sort mode.
pub fn sort_mode_label(mode: u8) -> (r: String)
    ensures
        r@ == sort_mode_label_spec(mode),
{
    match mode {
        1 => owned("Name (Z-A)"),
        2 => owned("Level (High-Low)"),
        3 => owned("Level (Low-High)"),
        _ => owned("Name (A-Z)"),
    }
}

/// The name and declared description of a skill folder: those its metadata
/// JSON text holds under `name` and `description`, else the folder's name and
/// an empty description.
pub fn skill_text(dir_name: &str, metadata_json: Option<&str>) -> (r: (String, String))
    ensures
        r.0@ == match field_in(str_opt_view(metadata_json), "name"@) {
            Some(n) => n,
            None => dir_name@,
        },
        r.1@ == match field_in(str_opt_view(metadata_json), "description"@) {
            Some(d) => d,
            None => Seq::<char>::empty(),
        },
{
    let (name, description) = match metadata_json {
        Some(text) => (json_string_field(text, "name"), json_string_field(text, "description")),
        None => (None, None),
    };
    let name = match name {
        Some(n) => n,
        None => owned(dir_name),
    };
    let description = match description {
        Some(d) => d,
        None => String::new(),
    };
    (name, description)
}

/// Whether a declared description names a Markdown file: trimmed and in
/// lowercase, it ends with `.md`.
pub open spec fn points_to_markdown_spec(declared: Seq<char>) -> bool {
    has_suffix(lowercase_text(trim_spec(declared)), ".md"@)
}

/// Whether a declared description names a Markdown file to load.
pub fn points_to_markdown(declared: &str) -> (r: bool)
    ensures
        r == points_to_markdown_spec(declared@),
{
    let trimmed = string_of(&trim_chars(&chars_of(declared)));
    let lower = to_lowercase(trimmed.as_str());
    ends_with(lower.as_str(), ".md")
}

/// Whether the default `description.md` is looked for: the declared
/// description is blank.
pub open spec fn wants_default_markdown_spec(declared: Seq<char>) -> bool {
    trim_spec(declared).len() == 0
}

/// Whether the default `description.md` is looked for.
pub fn wants_default_markdown(declared: &str) -> (r: bool)
    ensures
        r == wants_default_markdown_spec(declared@),
{
    trim_chars(&chars_of(declared)).len() == 0
}

/// The description a skill shows: the Markdown file its declaration names
/// when that was read; for a blank declaration the default Markdown file
/// when that was read; `No description available.` when the declaration is
/// blank or (trimmed) ends with `.md` and nothing was read; else the
/// declaration itself.
pub open spec fn skill_description_spec(
    declared: Seq<char>,
    declared_md: Option<Seq<char>>,
    default_md: Option<Seq<char>>,
) -> Seq<char> {
    if points_to_markdown_spec(declared) && declared_md is Some {
        declared_md->0
    } else if wants_default_markdown_spec(declared) && default_md is Some {
        default_md->0
    } else if has_suffix(trim_spec(declared), ".md"@) || trim_spec(declared).len() == 0 {
        "No description available."@
    } else {
        declared
    }
}

/// The description a skill shows, from its declared description and the
/// Markdown texts that could be read: `declared_md` from the file the
/// declaration names, `default_md` from the folder's `description.md` (or
/// `Description.md`).
pub fn skill_description(declared: &str, declared_md: Option<String>, default_md: Option<String>) -> (r: String)
    ensures
        r@ == skill_description_spec(declared@, opt_view(declared_md), opt_view(default_md)),
{
    if points_to_markdown(declared) {
        if let Some(md) = declared_md {
            return md;
        }
    }
    if wants_default_markdown(declared) {
        if let Some(md) = default_md {
            return md;
        }
    }
    let trimmed = string_of(&trim_chars(&chars_of(declared)));
    if ends_with(trimmed.as_str(), ".md") || trimmed.unicode_len() == 0 {
        owned("No description available.")
    } else {
        owned(declared)
    }
}

impl TextKeyed for (String, usize) {
    open spec fn key_of(&self) -> Seq<char> {
        self.0@
    }

    fn text_key(&self) -> (r: &str) {
        self.0.as_str()
    }
}

/// Whether `ks` pairs each name's lowercase form with its position.
pub open spec fn lowercase_keys(names: Seq<String>, ks: Seq<(String, usize)>) -> bool {
    &&& ks.len() == names.len()
    &&& forall|i: int| 0 <= i < ks.len() ==> (#[trigger] ks[i]).0@ == lowercase_text(names[i]@) && ks[i].1 == i
}

/// The order the skill catalogue is listed in: the positions of the names,
/// sorted by lowercase name; names with the same lowercase form keep their
/// order.
pub fn skill_name_order(names: &Vec<String>) -> (r: Vec<usize>)
    ensures
        exists|ks: Seq<(String, usize)>, sorted: Seq<(String, usize)>|
            lowercase_keys(names@, ks) && sorted.to_multiset() == ks.to_multiset() && sorted_by_key(sorted)
                && (forall|k: Seq<char>| #[trigger] keyed(sorted, k) == keyed(ks, k))
                && r@ == sorted.map_values(|p: (String, usize)| p.1),
{
    let mut pairs: Vec<(String, usize)> = Vec::new();
    let mut i: usize = 0;
    while i < names.len()
        invariant
            i <= names.len(),
            pairs.len() == i,
            forall|j: int| 0 <= j < i ==> (#[trigger] pairs@[j]).0@ == lowercase_text(names@[j]@) && pairs@[j].1 == j,
        decreases names.len() - i,
    {
        pairs.push((to_lowercase(names[i].as_str()), i));
        i += 1;
    }
    let ghost ks = pairs@;
    let sorted = sort_by_text_key(pairs);
    let mut r: Vec<usize> = Vec::new();
    let mut k: usize = 0;
    while k < sorted.len()
        invariant
            k <= sorted.len(),
            r@ == sorted@.take(k as int).map_values(|p: (String, usize)| p.1),
        decreases sorted.len() - k,
    {
        r.push(sorted[k].1);
        proof {
            assert(sorted@.take(k as int + 1).map_values(|p: (String, usize)| p.1) =~= sorted@.take(k as int).map_values(|p: (String, usize)| p.1).push(sorted@[k as int].1));
        }
        k += 1;
    }
    assert(sorted@.take(sorted@.len() as int) =~= sorted@);
    assert(lowercase_keys(names@, ks));
    r
}


/// The search keeps a skill exactly when the lowercase search text occurs,
/// as a run of consecutive characters, somewhere in the lowercase skill
/// name (an empty search keeps every skill); with "only owned" on, the
/// skill must also be owned or every skill be treated as owned.
pub proof fn lemma_search_keeps_substrings(f: GalleryFilter, e: SkillEntry)
    ensures
        shown(f, e) <==> ((!f.only_owned || f.show_all_active || e.level is Some) && (f.search@.len()
            == 0 || exists|i: int|
            0 <= i && i + lowercase_text(f.search@).len() <= lowercase_text(e.name@).len()
                && #[trigger] lowercase_text(e.name@).subrange(i, i + lowercase_text(f.search@).len())
                == lowercase_text(f.search@))),
{
}

/// A search whose lowercase text starts the lowercase name, or ends it,
/// keeps the skill (when the ownership filter does).
pub proof fn lemma_search_keeps_prefix_and_suffix(f: GalleryFilter, e: SkillEntry)
    requires
        !f.only_owned || f.show_all_active || e.level is Some,
    ensures
        lowercase_text(e.name@).len() >= lowercase_text(f.search@).len() && (
        lowercase_text(e.name@).take(lowercase_text(f.search@).len() as int) == lowercase_text(f.search@)
            || lowercase_text(e.name@).skip(
            lowercase_text(e.name@).len() - lowercase_text(f.search@).len(),
        ) == lowercase_text(f.search@)) ==> shown(f, e),
{
    let n = lowercase_text(e.name@);
    let q = lowercase_text(f.search@);
    if n.len() >= q.len() {
        if n.take(q.len() as int) == q {
            assert(n.subrange(0int, 0int + q.len()) =~= n.take(q.len() as int));
            assert(has_infix(n, q));
        }
        if n.skip(n.len() - q.len()) == q {
            assert(n.subrange(n.len() - q.len(), n.len() - q.len() + q.len()) =~= n.skip(n.len() - q.len()));
            assert(has_infix(n, q));
        }
    }
}


/// What each sort mode puts first, for any list in the gallery's order:
/// mode 0 lowercase names A to Z, mode 1 Z to A, mode 2 the player's level
/// high to low, mode 3 low to high (a skill not owned counting as level 0),
/// and any other mode catalogue order; skills that tie keep catalogue order.
pub proof fn lemma_sort_modes(mode: u8, es: Seq<SkillEntry>, s: Seq<usize>, i: int, j: int)
    requires
        in_gallery_order(mode, es, s),
        0 <= i < j < s.len(),
    ensures
        ({
            let a = s[i] as int;
            let b = s[j] as int;
            let na = lowercase_text(es[a].name@);
            let nb = lowercase_text(es[b].name@);
            let la = match es[a].level { Some(l) => l as int, None => 0 };
            let lb = match es[b].level { Some(l) => l as int, None => 0 };
            &&& mode == 0 ==> crate::text::seq_le(na, nb) && (na == nb ==> a < b)
            &&& mode == 1 ==> crate::text::seq_le(nb, na) && (na == nb ==> a < b)
            &&& mode == 2 ==> la >= lb && (la == lb ==> crate::text::seq_le(na, nb))
            &&& mode == 3 ==> la <= lb && (la == lb ==> crate::text::seq_le(na, nb))
            &&& mode > 3 ==> a < b
        }),
{
    assert(comes_before(mode, es, s[i] as int, s[j] as int));
    lemma_seq_less_irreflexive(lowercase_text(es[s[i] as int].name@));
}

} // verus!
