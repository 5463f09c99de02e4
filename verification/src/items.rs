//! The item catalogue: what is known of each item kind, and which files of
//! an item's folder describe it.
use vstd::prelude::*;
use crate::sorting::TextKeyed;
use crate::text::{ends_with, has_suffix};

verus! {

broadcast use vstd::string::group_string_axioms;

/// What the catalogue shows of an item: its name, its description, and the
/// path of its icon if it has one.
#[derive(Debug, Clone, PartialEq, Eq)]
pub struct ItemMeta {
    pub name: String,
    pub description: String,
    pub icon_path: Option<String>,
}

impl TextKeyed for ItemMeta {
    open spec fn key_of(&self) -> Seq<char> {
        self.name@
    }

    fn text_key(&self) -> (r: &str) {
        self.name.as_str()
    }
}

/// Whether a file name has the extension `json`: it ends with `.json` and
/// something comes before that dot (a name that is only `.json` has no
/// extension).
pub open spec fn is_json_name(file_name: Seq<char>) -> bool {
    has_suffix(file_name, ".json"@) && file_name.len() > 5
}

/// Whether a file name has the extension `json`.
pub fn is_json_file_name(file_name: &str) -> (r: bool)
    ensures
        r == is_json_name(file_name@),
{
    proof {
        reveal_strlit(".json");
    }
    ends_with(file_name, ".json") && file_name.unicode_len() > 5
}

/// Hot slots shown in the inventory.
pub const HOT_SLOT_COUNT: usize = 9;

/// The most potions one hot slot holds.
pub const HOT_SLOT_STACK_LIMIT: i32 = 999;

/// How many hot slots a count of potions fills: the count split into
/// stacks of at most the limit.
pub open spec fn stack_count(c: int) -> int {
    if c <= 0 {
        0
    } else {
        (c + HOT_SLOT_STACK_LIMIT - 1) / (HOT_SLOT_STACK_LIMIT as int)
    }
}

/// The size of stack `j` of a count: the limit, or what is left for the
/// last stack.
pub open spec fn stack_size(c: int, j: int) -> int {
    vstd::math::min(HOT_SLOT_STACK_LIMIT as int, c - HOT_SLOT_STACK_LIMIT * j)
}

/// The stacks of the first `n` catalogue potions, potion by potion: the
/// potion's catalogue position and the stack's size.
pub open spec fn potion_stacks(counts: Seq<i32>, n: int) -> Seq<(usize, i32)>
    decreases n,
{
    if n <= 0 {
        Seq::empty()
    } else {
        potion_stacks(counts, n - 1) + Seq::new(
            stack_count(counts[n - 1] as int) as nat,
            |j: int| ((n - 1) as usize, stack_size(counts[n - 1] as int, j) as i32),
        )
    }
}

/// The hot slots: the first stacks of the catalogue's potions, in catalogue
/// order, then empty slots up to the slot count.
pub open spec fn hot_slots_spec(counts: Seq<i32>) -> Seq<Option<(usize, i32)>> {
    let stacks = potion_stacks(counts, counts.len() as int);
    Seq::new(
        HOT_SLOT_COUNT as nat,
        |s: int| if s < stacks.len() { Some(stacks[s]) } else { None },
    )
}

proof fn lemma_stacks_prefix(counts: Seq<i32>, n: int, m: int)
    requires
        0 <= n <= m,
    ensures
        potion_stacks(counts, n).len() <= potion_stacks(counts, m).len(),
        forall|s: int| 0 <= s < potion_stacks(counts, n).len() ==> potion_stacks(counts, m)[s] == potion_stacks(counts, n)[s],
    decreases m - n,
{
    if n < m {
        lemma_stacks_prefix(counts, n, m - 1);
        assert(stack_count(counts[m - 1] as int) >= 0) by {
            let c = counts[m - 1] as int;
            if c > 0 {
                assert((c + 998) / 999 >= 0) by (nonlinear_arith) requires c > 0;
            }
        }
    }
}

proof fn lemma_stack_bounds(c: int, k: int)
    requires
        c > 0,
        k >= 0,
    ensures
        (HOT_SLOT_STACK_LIMIT * k < c) <==> (k < stack_count(c)),
{
    let q = (c + 998) / 999;
    vstd::arithmetic::div_mod::lemma_fundamental_div_mod(c + 998, 999);
    assert((999 * k < c) <==> (k < q)) by (nonlinear_arith)
        requires
            c + 998 == 999 * q + (c + 998) % 999,
            0 <= (c + 998) % 999 < 999,
            c > 0,
            k >= 0,
    ;
}

/// The hot slots for the player's potion counts, one count per catalogue
/// potion in catalogue order (0 when the player has none).
pub fn hot_slots(counts: &Vec<i32>) -> (r: Vec<Option<(usize, i32)>>)
    ensures
        r@ == hot_slots_spec(counts@),
{
    let mut slots: Vec<Option<(usize, i32)>> = Vec::new();
    let mut i: usize = 0;
    while i < counts.len()
        invariant_except_break
            i <= counts@.len(),
            slots@.len() < HOT_SLOT_COUNT,
            slots@.len() == potion_stacks(counts@, i as int).len(),
            forall|s: int| 0 <= s < slots@.len() ==> slots@[s] == Some(#[trigger] potion_stacks(counts@, i as int)[s]),
        invariant
            slots@.len() <= HOT_SLOT_COUNT,
        ensures
            i <= counts@.len(),
            slots@.len() <= HOT_SLOT_COUNT,
            slots@.len() < HOT_SLOT_COUNT ==> i == counts@.len(),
            slots@.len() <= potion_stacks(counts@, i as int).len(),
            i == counts@.len() ==> slots@.len() == potion_stacks(counts@, i as int).len()
                || slots@.len() == HOT_SLOT_COUNT,
            forall|s: int| 0 <= s < slots@.len() ==> slots@[s] == Some(#[trigger] potion_stacks(counts@, i as int)[s]),
        decreases counts.len() - i,
    {
        let c = counts[i];
        let ghost base = slots@.len();
        let ghost before = potion_stacks(counts@, i as int);
        let ghost after = potion_stacks(counts@, i + 1);
        proof {
            assert(after == before + Seq::new(
                stack_count(c as int) as nat,
                |j: int| (i as usize, stack_size(c as int, j) as i32),
            ));
        }
        if c > 0 {
            let mut remaining: i32 = c;
            let mut k: usize = 0;
            while remaining > 0 && slots.len() < HOT_SLOT_COUNT
                invariant
                    c > 0,
                    base == before.len(),
                    base < HOT_SLOT_COUNT,
                    after == before + Seq::new(
                        stack_count(c as int) as nat,
                        |j: int| (i as usize, stack_size(c as int, j) as i32),
                    ),
                    slots@.len() == base + k,
                    slots@.len() <= HOT_SLOT_COUNT,
                    remaining == (if c - HOT_SLOT_STACK_LIMIT * k > 0 { c - HOT_SLOT_STACK_LIMIT * k } else { 0 }),
                    k <= stack_count(c as int),
                    forall|s: int| 0 <= s < slots@.len() ==> slots@[s] == Some(#[trigger] after[s]),
                decreases remaining,
            {
                proof {
                    lemma_stack_bounds(c as int, k as int);
                }
                let count = if remaining < HOT_SLOT_STACK_LIMIT { remaining } else { HOT_SLOT_STACK_LIMIT };
                let ghost prev = slots@;
                slots.push(Some((i, count)));
                remaining = remaining - count;
                proof {
                    assert(after[base + k] == (i as usize, stack_size(c as int, k as int) as i32));
                    assert forall|s: int| 0 <= s < slots@.len() implies slots@[s] == Some(#[trigger] after[s]) by {
                        if s < prev.len() {
                            assert(slots@[s] == prev[s]);
                        }
                    }
                    lemma_stack_bounds(c as int, k + 1);
                }
                k += 1;
            }
            proof {
                if slots@.len() < HOT_SLOT_COUNT {
                    lemma_stack_bounds(c as int, k as int);
                    assert(k == stack_count(c as int));
                    assert(slots@.len() == after.len());
                }
            }
        } else {
            proof {
                assert(after =~= before);
            }
        }
        proof {
            assert forall|s: int| 0 <= s < slots@.len() implies slots@[s] == Some(#[trigger] potion_stacks(counts@, i + 1)[s]) by {
                if s < base {
                    assert(after[s] == before[s]);
                }
            }
        }
        if slots.len() == HOT_SLOT_COUNT {
            proof {
                assert(slots@.len() <= potion_stacks(counts@, i + 1).len());
            }
            i += 1;
            break;
        }
        i += 1;
    }
    proof {
        lemma_stacks_prefix(counts@, i as int, counts@.len() as int);
    }
    let ghost filled = slots@.len();
    while slots.len() < HOT_SLOT_COUNT
        invariant
            filled <= slots@.len() <= HOT_SLOT_COUNT,
            forall|s: int| 0 <= s < filled ==> slots@[s] == Some(#[trigger] potion_stacks(counts@, counts@.len() as int)[s]),
            forall|s: int| filled <= s < slots@.len() ==> slots@[s] is None,
        decreases HOT_SLOT_COUNT - slots.len(),
    {
        slots.push(None);
    }
    proof {
        let stacks = potion_stacks(counts@, counts@.len() as int);
        assert(filled == stacks.len() || filled == HOT_SLOT_COUNT);
        assert(slots@ =~= hot_slots_spec(counts@));
    }
    slots
}

} // verus!
