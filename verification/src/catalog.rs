//! Listing the puzzles of the catalog, as the command line does.
use vstd::prelude::*;

use crate::ordering::{key_less, sort_positions};
use crate::naming::opt_str_view;
use crate::tags::{TagSet, TagValueView};

verus! {

/// What the catalog lists of a puzzle or puzzle generator.
#[derive(Debug)]
pub struct PuzzleListMetadata {
    /// ID of the puzzle or generator.
    pub id: String,
    /// Human-readable name.
    pub name: String,
    /// Tags.
    pub tags: TagSet,
}

/// Whether a tag set marks its object as experimental.
pub open spec fn marked_experimental(tags: Map<Seq<char>, TagValueView>) -> bool {
    tags.contains_key("experimental"@) && tags["experimental"@].spec_is_present()
}

/// The IDs of the entries that the listing keeps: all of them when
/// experimental objects are included, otherwise those not marked
/// experimental; in order.
pub open spec fn kept_ids(entries: Seq<PuzzleListMetadata>, experimental: bool) -> Seq<Seq<char>>
    decreases entries.len(),
{
    if entries.len() == 0 {
        Seq::empty()
    } else if experimental || !marked_experimental(entries.last().tags@) {
        kept_ids(entries.drop_last(), experimental).push(entries.last().id@)
    } else {
        kept_ids(entries.drop_last(), experimental)
    }
}

/// `ids` are `kept` in increasing order: a reordering of them by which no
/// ID comes before a smaller one.
pub open spec fn sorted_listing(kept: Seq<Seq<char>>, ids: Seq<Seq<char>>) -> bool {
    exists|pos: Seq<int>|
        #![trigger pos.len()]
        {
            &&& pos.len() == kept.len()
            &&& ids.len() == kept.len()
            &&& forall|j: int| 0 <= j < pos.len() ==> 0 <= #[trigger] pos[j] < kept.len() && ids[j] == kept[pos[j]]
            &&& forall|a: int, b: int| 0 <= a < b < pos.len() ==> #[trigger] pos[a] != #[trigger] pos[b]
            &&& forall|a: int, b: int| 0 <= a < b < ids.len() ==> key_less(
                Some(#[trigger] ids[a]),
                pos[a],
                Some(#[trigger] ids[b]),
                pos[b],
            )
        }
}

/// Appends the IDs of the entries that the listing keeps.
fn keep_entries(
    entries: &[PuzzleListMetadata],
    experimental: bool,
    out: &mut Vec<Option<String>>,
)
    ensures
        final(out)@.map_values(|o: Option<String>| opt_str_view(o)) == old(out)@.map_values(
            |o: Option<String>| opt_str_view(o),
        ) + kept_ids(entries@, experimental).map_values(|s: Seq<char>| Some(s)),
{
    let ghost start = old(out)@.map_values(|o: Option<String>| opt_str_view(o));
    let mut k: usize = 0;
    while k < entries.len()
        invariant
            k <= entries@.len(),
            out@.map_values(|o: Option<String>| opt_str_view(o)) == start + kept_ids(
                entries@.take(k as int),
                experimental,
            ).map_values(|s: Seq<char>| Some(s)),
        decreases entries@.len() - k,
    {
        let ghost before = out@;
        assert(entries@.take(k + 1).drop_last() =~= entries@.take(k as int));
        assert(entries@.take(k + 1).last() == entries@[k as int]);
        if experimental || !entries[k].tags.is_experimental() {
            out.push(Some(entries[k].id.clone()));
            assert(out@.map_values(|o: Option<String>| opt_str_view(o)) =~= before.map_values(
                |o: Option<String>| opt_str_view(o),
            ).push(Some(entries@[k as int].id@)));
            assert(kept_ids(entries@.take(k + 1), experimental).map_values(|s: Seq<char>| Some(s))
                =~= kept_ids(entries@.take(k as int), experimental).map_values(
                |s: Seq<char>| Some(s),
            ).push(Some(entries@[k as int].id@)));
        }
        k = k + 1;
    }
    assert(entries@.take(entries@.len() as int) =~= entries@);
}

/// Lists the IDs of puzzles in the catalog: the non-generated puzzles,
/// the generators and the generated examples that the flags ask for (all
/// three when none is asked for), without experimental ones unless
/// `experimental` is set, in increasing order of ID.
pub fn list_puzzle_ids(
    non_generated: &[PuzzleListMetadata],
    generators: &[PuzzleListMetadata],
    generated_examples: &[PuzzleListMetadata],
    puzzles: bool,
    generators_flag: bool,
    examples: bool,
    experimental: bool,
) -> (r: Vec<String>)
    ensures
        ({
            let all = !puzzles && !generators_flag && !examples;
            let kept = (if all || puzzles {
                kept_ids(non_generated@, experimental)
            } else {
                Seq::empty()
            }) + (if all || generators_flag {
                kept_ids(generators@, experimental)
            } else {
                Seq::empty()
            }) + (if all || examples {
                kept_ids(generated_examples@, experimental)
            } else {
                Seq::empty()
            });
            sorted_listing(kept, r@.map_values(|s: String| s@))
        }),
{
    let all = !puzzles && !generators_flag && !examples;
    let mut keys: Vec<Option<String>> = Vec::new();
    if all || puzzles {
        keep_entries(non_generated, experimental, &mut keys);
    }
    let ghost k1 = keys@.map_values(|o: Option<String>| opt_str_view(o));
    if all || generators_flag {
        keep_entries(generators, experimental, &mut keys);
    }
    let ghost k2 = keys@.map_values(|o: Option<String>| opt_str_view(o));
    if all || examples {
        keep_entries(generated_examples, experimental, &mut keys);
    }
    let ghost kept = (if all || puzzles {
        kept_ids(non_generated@, experimental)
    } else {
        Seq::empty()
    }) + (if all || generators_flag {
        kept_ids(generators@, experimental)
    } else {
        Seq::empty()
    }) + (if all || examples {
        kept_ids(generated_examples@, experimental)
    } else {
        Seq::empty()
    });
    assert(keys@.map_values(|o: Option<String>| opt_str_view(o)) =~= kept.map_values(
        |s: Seq<char>| Some(s),
    ));
    proof {
        assert forall|i: int| 0 <= i < keys@.len() implies opt_str_view(#[trigger] keys@[i]) == Some(
            kept[i],
        ) by {
            assert(keys@.map_values(|o: Option<String>| opt_str_view(o))[i] == kept.map_values(
                |s: Seq<char>| Some(s),
            )[i]);
        }
    }
    let ps = sort_positions(&keys);
    let mut r: Vec<String> = Vec::new();
    let mut j: usize = 0;
    while j < ps.len()
        invariant
            j <= ps@.len(),
            ps@.len() == keys@.len(),
            keys@.len() == kept.len(),
            forall|i: int| 0 <= i < ps@.len() ==> (#[trigger] ps@[i]) < keys@.len(),
            forall|i: int| 0 <= i < keys@.len() ==> opt_str_view(#[trigger] keys@[i]) == Some(kept[i]),
            r@.len() == j,
            forall|i: int| 0 <= i < j ==> (#[trigger] r@[i])@ == kept[ps@[i] as int],
        decreases ps@.len() - j,
    {
        let id = match &keys[ps[j]] {
            Some(s) => s.clone(),
            None => String::new(),
        };
        assert(opt_str_view(keys@[ps@[j as int] as int]) == Some(kept[ps@[j as int] as int]));
        r.push(id);
        j = j + 1;
    }
    proof {
        let ids = r@.map_values(|s: String| s@);
        let pos = Seq::new(ps@.len(), |i: int| ps@[i] as int);
        assert forall|a: int, b: int| 0 <= a < b < ids.len() implies key_less(
            Some(#[trigger] ids[a]),
            pos[a],
            Some(#[trigger] ids[b]),
            pos[b],
        ) by {
            assert(key_less(
                opt_str_view(keys@[ps@[a] as int]),
                ps@[a] as int,
                opt_str_view(keys@[ps@[b] as int]),
                ps@[b] as int,
            ));
            assert(ids[a] == kept[ps@[a] as int]);
            assert(ids[b] == kept[ps@[b] as int]);
        }
        assert forall|a: int, b: int| 0 <= a < b < pos.len() implies #[trigger] pos[a]
            != #[trigger] pos[b] by {
            assert(ps@[a] != ps@[b]);
        }
        assert(pos.len() == kept.len());
        assert(sorted_listing(kept, ids));
    }
    r
}

/// Whether the listing shows an entry: always with the experimental flag;
/// otherwise only if its `experimental` tag is absent or `False` (any other
/// value, `Inherited` included, marks it experimental).
pub open spec fn listed(experimental: bool) -> spec_fn(PuzzleListMetadata) -> bool {
    |e: PuzzleListMetadata|
        experimental || !(e.tags@.contains_key("experimental"@) && e.tags@["experimental"@]
            != TagValueView::False)
}

/// The listing keeps exactly the entries it shows, in order: without the
/// experimental flag, every entry whose tag set is experimental (the tag is
/// there with any value but `False`) is hidden, and every other entry is
/// listed.
pub proof fn law_listing_hides_experimental(entries: Seq<PuzzleListMetadata>, experimental: bool)
    ensures
        kept_ids(entries, experimental) == entries.filter(listed(experimental)).map_values(
            |e: PuzzleListMetadata| e.id@,
        ),
    decreases entries.len(),
{
    reveal(Seq::filter);
    if entries.len() == 0 {
        assert(kept_ids(entries, experimental) =~= entries.filter(listed(experimental)).map_values(
            |e: PuzzleListMetadata| e.id@,
        ));
    } else {
        law_listing_hides_experimental(entries.drop_last(), experimental);
        let x = entries.last();
        let rest = entries.drop_last().filter(listed(experimental));
        assert(listed(experimental)(x) == (experimental || !marked_experimental(x.tags@)));
        assert(rest.push(x).map_values(|e: PuzzleListMetadata| e.id@) =~= rest.map_values(
            |e: PuzzleListMetadata| e.id@,
        ).push(x.id@));
    }
}

} // verus!
