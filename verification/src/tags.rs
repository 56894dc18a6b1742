//! Tags attached to catalog objects: their values, the registry of known
//! tags, and the set of tags of one object.
use vstd::prelude::*;

use crate::text::{parse_i64, spec_parse_i64, str_equal};

verus! {

/// Value of a tag.
#[derive(Debug)]
pub enum TagValue {
    /// The tag is absent.
    False,
    /// The tag is present, without a value.
    True,
    /// The tag is present because a parent object has it.
    Inherited,
    /// Integer value.
    Int(i64),
    /// String value.
    Str(String),
    /// List of strings.
    StrList(Vec<String>),
    /// Reference to a puzzle by ID.
    Puzzle(String),
}

/// What a tag value holds, with strings as sequences of characters.
pub enum TagValueView {
    False,
    True,
    Inherited,
    Int(i64),
    Str(Seq<char>),
    StrList(Seq<Seq<char>>),
    Puzzle(Seq<char>),
}

impl View for TagValue {
    type V = TagValueView;

    open spec fn view(&self) -> TagValueView {
        match self {
            TagValue::False => TagValueView::False,
            TagValue::True => TagValueView::True,
            TagValue::Inherited => TagValueView::Inherited,
            TagValue::Int(i) => TagValueView::Int(*i),
            TagValue::Str(s) => TagValueView::Str(s@),
            TagValue::StrList(l) => TagValueView::StrList(strs_view(l@)),
            TagValue::Puzzle(p) => TagValueView::Puzzle(p@),
        }
    }
}

/// The characters of each string of a list.
pub open spec fn strs_view(v: Seq<String>) -> Seq<Seq<char>> {
    v.map_values(|s: String| s@)
}

/// Whether one of the strings of a list is `s`.
pub fn list_contains(l: &Vec<String>, s: &str) -> (r: bool)
    ensures
        r == strs_view(l@).contains(s@),
{
    let mut k: usize = 0;
    while k < l.len()
        invariant
            k <= l@.len(),
            forall|j: int| 0 <= j < k ==> l@[j]@ != s@,
        decreases l@.len() - k,
    {
        if str_equal(s, l[k].as_str()) {
            assert(strs_view(l@)[k as int] == s@);
            return true;
        }
        k = k + 1;
    }
    assert(!strs_view(l@).contains(s@));
    false
}

impl Clone for TagValue {
    fn clone(&self) -> (r: Self)
        ensures
            r@ == self@,
    {
        match self {
            TagValue::False => TagValue::False,
            TagValue::True => TagValue::True,
            TagValue::Inherited => TagValue::Inherited,
            TagValue::Int(i) => TagValue::Int(*i),
            TagValue::Str(s) => TagValue::Str(s.clone()),
            TagValue::StrList(l) => {
                let mut c: Vec<String> = Vec::new();
                let mut k: usize = 0;
                while k < l.len()
                    invariant
                        k <= l@.len(),
                        c@ == l@.take(k as int),
                    decreases l@.len() - k,
                {
                    c.push(l[k].clone());
                    assert(l@.take(k + 1) =~= l@.take(k as int).push(l@[k as int]));
                    k = k + 1;
                }
                assert(l@.take(l@.len() as int) =~= l@);
                assert(strs_view(c@) =~= strs_view(l@));
                TagValue::StrList(c)
            },
            TagValue::Puzzle(p) => TagValue::Puzzle(p.clone()),
        }
    }
}

impl TagValueView {
    /// Whether the tag counts as present.
    pub open spec fn spec_is_present(self) -> bool {
        !(self is False)
    }

    /// Whether a tag with this value meets a search criterion: with no value
    /// given, whether the tag is present; with a value, whether the tag's value
    /// is that value (`"true"` and `"false"` for the flags, the decimal integer
    /// for an integer, one of the strings for a list).
    pub open spec fn spec_meets(self, value: Option<Seq<char>>) -> bool {
        match value {
            None => self.spec_is_present(),
            Some(s) => match self {
                TagValueView::False => s == "false"@,
                TagValueView::True => s == "true"@,
                TagValueView::Inherited => s == "true"@,
                TagValueView::Int(i) => spec_parse_i64(s) == Some(i as int),
                TagValueView::Str(t) => s == t,
                TagValueView::StrList(l) => l.contains(s),
                TagValueView::Puzzle(p) => s == p,
            },
        }
    }
}

impl TagValue {

    /// Returns whether the tag counts as present: every value but `False`.
    pub fn is_present(&self) -> (r: bool)
        ensures
            r == self@.spec_is_present(),
    {
        match self {
            TagValue::False => false,
            _ => true,
        }
    }

    /// Returns the string of a `Str` value.
    pub fn as_str(&self) -> (r: Option<&str>)
        ensures
            match self {
                TagValue::Str(s) => r is Some && r->0@ == s@,
                _ => r is None,
            },
    {
        match self {
            TagValue::Str(s) => Some(s.as_str()),
            _ => None,
        }
    }

    /// Returns the strings of a `StrList` value.
    pub fn as_str_list(&self) -> (r: Option<&[String]>)
        ensures
            match self {
                TagValue::StrList(l) => r is Some && r->0@ == l@,
                _ => r is None,
            },
    {
        match self {
            TagValue::StrList(l) => Some(l.as_slice()),
            _ => None,
        }
    }

    /// Returns whether this value meets a search criterion (see `spec_meets`).
    pub fn meets_search_criterion(&self, value: Option<&str>) -> (r: bool)
        ensures
            r == self@.spec_meets(
                match value {
                    Some(s) => Some(s@),
                    None => None,
                },
            ),
    {
        match value {
            None => self.is_present(),
            Some(s) => match self {
                TagValue::False => str_equal(s, "false"),
                TagValue::True => str_equal(s, "true"),
                TagValue::Inherited => str_equal(s, "true"),
                TagValue::Int(i) => match parse_i64(s) {
                    Some(j) => j == *i,
                    None => false,
                },
                TagValue::Str(t) => str_equal(s, t.as_str()),
                TagValue::Puzzle(p) => str_equal(s, p.as_str()),
                TagValue::StrList(l) => list_contains(l, s),
            },
        }
    }
}

/// A tag known to the catalog.
#[derive(Debug, Clone)]
pub struct TagData {
    /// Name of the tag, such as `"author"`.
    pub name: String,
}

/// Error for a tag name that the registry does not know.
#[derive(Debug, Clone)]
pub struct UnknownTag(pub String);

/// The tags known to the catalog.
#[derive(Debug, Clone)]
pub struct TagRegistry {
    /// Known tags.
    pub tags: Vec<TagData>,
}

impl TagRegistry {
    /// Whether a tag of that name is known.
    pub open spec fn knows(self, name: Seq<char>) -> bool {
        exists|i: int| 0 <= i < self.tags@.len() && #[trigger] self.tags@[i].name@ == name
    }

    /// Returns the tag with the given name, or `UnknownTag` if there is none.
    pub fn get(&self, tag_name: &str) -> (r: Result<&TagData, UnknownTag>)
        ensures
            match r {
                Ok(t) => t.name@ == tag_name@ && self.knows(tag_name@),
                Err(e) => e.0@ == tag_name@ && !self.knows(tag_name@),
            },
    {
        let mut i: usize = 0;
        while i < self.tags.len()
            invariant
                i <= self.tags@.len(),
                forall|j: int| 0 <= j < i ==> self.tags@[j].name@ != tag_name@,
            decreases self.tags@.len() - i,
        {
            if str_equal(self.tags[i].name.as_str(), tag_name) {
                return Ok(&self.tags[i]);
            }
            i = i + 1;
        }
        Err(UnknownTag(tag_name.to_owned()))
    }
}

/// Set of tags and associated values for an object in the catalog.
#[derive(Debug)]
pub struct TagSet {
    names: Vec<String>,
    values: Vec<TagValue>,
}

/// Whether a tag of the given name stands among the entries.
pub open spec fn entries_have(entries: Seq<(String, TagValue)>, name: Seq<char>) -> bool {
    exists|i: int| 0 <= i < entries.len() && #[trigger] entries[i].0@ == name
}

/// The position of the entry of the given name.
pub open spec fn entries_index(entries: Seq<(String, TagValue)>, name: Seq<char>) -> int {
    choose|i: int| 0 <= i < entries.len() && #[trigger] entries[i].0@ == name
}

/// No two entries have the same name.
pub open spec fn entries_distinct(entries: Seq<(String, TagValue)>) -> bool {
    forall|i: int, j: int|
        0 <= i < entries.len() && 0 <= j < entries.len() && i != j ==> #[trigger] entries[i].0@
            != #[trigger] entries[j].0@
}

/// The map from names to values that the entries hold.
pub open spec fn entries_map(entries: Seq<(String, TagValue)>) -> Map<Seq<char>, TagValueView> {
    Map::new(
        |k: Seq<char>| entries_have(entries, k),
        |k: Seq<char>| entries[entries_index(entries, k)].1@,
    )
}

/// The entries that parallel sequences of names and values make.
pub open spec fn zip_entries(names: Seq<String>, values: Seq<TagValue>) -> Seq<(String, TagValue)> {
    Seq::new(names.len(), |i: int| (names[i], values[i]))
}

/// No two names are the same.
pub open spec fn names_distinct(names: Seq<String>) -> bool {
    forall|i: int, j: int|
        0 <= i < names.len() && 0 <= j < names.len() && i != j ==> #[trigger] names[i]@
            != #[trigger] names[j]@
}

/// In distinct entries, the entry at position `i` is the one that the map
/// gives for its name.
pub proof fn lemma_entries_index(entries: Seq<(String, TagValue)>, i: int)
    requires
        entries_distinct(entries),
        0 <= i < entries.len(),
    ensures
        entries_have(entries, entries[i].0@),
        entries_index(entries, entries[i].0@) == i,
        entries_map(entries)[entries[i].0@] == entries[i].1@,
{
    assert(entries_have(entries, entries[i].0@));
}

/// Distinct names make distinct entries.
proof fn lemma_zip_distinct(names: Seq<String>, values: Seq<TagValue>)
    requires
        names.len() == values.len(),
        names_distinct(names),
    ensures
        entries_distinct(zip_entries(names, values)),
{
    let e = zip_entries(names, values);
    assert forall|a: int, b: int|
        0 <= a < e.len() && 0 <= b < e.len() && a != b implies #[trigger] e[a].0@
        != #[trigger] e[b].0@ by {
        assert(e[a].0 == names[a]);
        assert(e[b].0 == names[b]);
    }
}

/// Giving the value at position `i` a new value gives the tag of that
/// position the new value in the map, and leaves every other tag as it was.
proof fn lemma_zip_update_value(names: Seq<String>, values: Seq<TagValue>, i: int, x: TagValue)
    requires
        names.len() == values.len(),
        names_distinct(names),
        0 <= i < names.len(),
    ensures
        entries_map(zip_entries(names, values.update(i, x))) == entries_map(
            zip_entries(names, values),
        ).insert(names[i]@, x@),
{
    let old_entries = zip_entries(names, values);
    let ne = zip_entries(names, values.update(i, x));
    let key = names[i]@;
    lemma_zip_distinct(names, values);
    lemma_zip_distinct(names, values.update(i, x));
    assert forall|j: int| 0 <= j < ne.len() implies #[trigger] ne[j].0 == old_entries[j].0 by {}
    assert(entries_map(ne) =~= entries_map(old_entries).insert(key, x@)) by {
        assert forall|k: Seq<char>| #[trigger]
            entries_map(ne).contains_key(k) == entries_map(old_entries).insert(
                key,
                x@,
            ).contains_key(k) by {
            if entries_have(ne, k) {
                let j = entries_index(ne, k);
                assert(ne[j].0 == old_entries[j].0);
            }
            if entries_have(old_entries, k) {
                let j = entries_index(old_entries, k);
                assert(ne[j].0 == old_entries[j].0);
            }
            if k == key {
                assert(ne[i].0@ == k);
            }
        }
        assert forall|k: Seq<char>| #[trigger]
            entries_map(ne).contains_key(k) implies entries_map(ne)[k]
            == entries_map(old_entries).insert(key, x@)[k] by {
            let j = entries_index(ne, k);
            lemma_entries_index(ne, j);
            if k == key {
                lemma_entries_index(ne, i);
            } else {
                assert(j != i);
                assert(old_entries[j] == ne[j]);
                lemma_entries_index(old_entries, j);
            }
        }
    }
}

/// Adding a new name with its value at the end adds that tag to the map.
proof fn lemma_zip_push(names: Seq<String>, values: Seq<TagValue>, name: String, x: TagValue)
    requires
        names.len() == values.len(),
        names_distinct(names),
        forall|j: int| 0 <= j < names.len() ==> #[trigger] names[j]@ != name@,
    ensures
        names_distinct(names.push(name)),
        entries_map(zip_entries(names.push(name), values.push(x))) == entries_map(
            zip_entries(names, values),
        ).insert(name@, x@),
{
    let old_entries = zip_entries(names, values);
    let nn = names.push(name);
    let ne = zip_entries(nn, values.push(x));
    let n = names.len() as int;
    let key = name@;
    assert(names_distinct(nn)) by {
        assert forall|a: int, b: int|
            0 <= a < nn.len() && 0 <= b < nn.len() && a != b implies #[trigger] nn[a]@
            != #[trigger] nn[b]@ by {
            if a != n && b != n {
                assert(nn[a] == names[a]);
                assert(nn[b] == names[b]);
            } else if a == n {
                assert(nn[b] == names[b]);
            } else {
                assert(nn[a] == names[a]);
            }
        }
    }
    lemma_zip_distinct(names, values);
    lemma_zip_distinct(nn, values.push(x));
    assert forall|j: int| 0 <= j < n implies #[trigger] ne[j] == old_entries[j] by {}
    assert(entries_map(ne) =~= entries_map(old_entries).insert(key, x@)) by {
        assert forall|k: Seq<char>| #[trigger]
            entries_map(ne).contains_key(k) == entries_map(old_entries).insert(
                key,
                x@,
            ).contains_key(k) by {
            if entries_have(ne, k) {
                let j = entries_index(ne, k);
                if j != n {
                    assert(old_entries[j] == ne[j]);
                }
            }
            if entries_have(old_entries, k) {
                let j = entries_index(old_entries, k);
                assert(old_entries[j] == ne[j]);
            }
            if k == key {
                assert(ne[n].0@ == k);
            }
        }
        assert forall|k: Seq<char>| #[trigger]
            entries_map(ne).contains_key(k) implies entries_map(ne)[k]
            == entries_map(old_entries).insert(key, x@)[k] by {
            let j = entries_index(ne, k);
            lemma_entries_index(ne, j);
            if k == key {
                lemma_entries_index(ne, n);
            } else {
                assert(j != n);
                assert(old_entries[j] == ne[j]);
                lemma_entries_index(old_entries, j);
            }
        }
    }
}

impl View for TagSet {
    type V = Map<Seq<char>, TagValueView>;

    closed spec fn view(&self) -> Map<Seq<char>, TagValueView> {
        entries_map(self.entries_seq())
    }
}

/// The value of a string-list tag, or no strings.
pub open spec fn str_list_of(v: Option<TagValueView>) -> Seq<Seq<char>> {
    match v {
        Some(TagValueView::StrList(l)) => l,
        _ => Seq::empty(),
    }
}

/// The string of a string tag, if it has one.
pub open spec fn str_of(v: Option<TagValueView>) -> Option<Seq<char>> {
    match v {
        Some(TagValueView::Str(s)) => Some(s),
        _ => None,
    }
}

/// The address of the puzzle's page in the World Cube Association's rankings.
pub open spec fn wca_url_for(wca_id: Seq<char>) -> Seq<char> {
    "https://www.worldcubeassociation.org/results/rankings/"@ + wca_id + "/single"@
}

/// The entries whose value is not `Inherited`, in order.
pub open spec fn not_inherited(entries: Seq<(String, TagValue)>) -> Seq<(String, TagValue)>
    decreases entries.len(),
{
    if entries.len() == 0 {
        Seq::empty()
    } else if entries.last().1 is Inherited {
        not_inherited(entries.drop_last())
    } else {
        not_inherited(entries.drop_last()).push(entries.last())
    }
}

/// Pairs of references read as the pairs they point to.
pub open spec fn deref_pairs(s: Seq<(&String, &TagValue)>) -> Seq<(String, TagValue)> {
    s.map_values(|p: (&String, &TagValue)| (*p.0, *p.1))
}

impl Default for TagSet {
    fn default() -> (r: Self)
        ensures
            r@ == Map::<Seq<char>, TagValueView>::empty(),
    {
        TagSet::new()
    }
}

impl Clone for TagSet {
    fn clone(&self) -> (r: Self)
        ensures
            r@ == self@,
    {
        proof {
            use_type_invariant(self);
        }
        let ghost e = self.entries_seq();
        let mut names: Vec<String> = Vec::new();
        let mut values: Vec<TagValue> = Vec::new();
        let mut k: usize = 0;
        while k < self.names.len()
            invariant
                k <= self.names@.len(),
                self.names@.len() == self.values@.len(),
                e == zip_entries(self.names@, self.values@),
                names@.len() == k,
                values@.len() == k,
                forall|j: int| 0 <= j < k ==> #[trigger] names@[j]@ == self.names@[j]@,
                forall|j: int| 0 <= j < k ==> #[trigger] values@[j]@ == self.values@[j]@,
            decreases self.names@.len() - k,
        {
            names.push(self.names[k].clone());
            values.push(self.values[k].clone());
            k = k + 1;
        }
        let ghost ce = zip_entries(names@, values@);
        assert(names_distinct(names@)) by {
            assert forall|a: int, b: int|
                0 <= a < names@.len() && 0 <= b < names@.len() && a != b implies #[trigger] names@[a]@
                != #[trigger] names@[b]@ by {
                assert(names@[a]@ == self.names@[a]@);
                assert(names@[b]@ == self.names@[b]@);
            }
        }
        proof {
            lemma_zip_distinct(names@, values@);
            lemma_zip_distinct(self.names@, self.values@);
        }
        assert forall|j: int| 0 <= j < ce.len() implies #[trigger] ce[j].0@ == e[j].0@ && ce[j].1@
            == e[j].1@ by {
            assert(names@[j]@ == self.names@[j]@);
            assert(values@[j]@ == self.values@[j]@);
        }
        assert(entries_map(ce) =~= entries_map(e)) by {
            assert forall|key: Seq<char>| #[trigger]
                entries_map(ce).contains_key(key) == entries_map(e).contains_key(key) by {
                if entries_have(ce, key) {
                    let j = entries_index(ce, key);
                    assert(ce[j].0@ == e[j].0@);
                }
                if entries_have(e, key) {
                    let j = entries_index(e, key);
                    assert(ce[j].0@ == e[j].0@);
                }
            }
            assert forall|key: Seq<char>| #[trigger]
                entries_map(ce).contains_key(key) implies entries_map(ce)[key]
                == entries_map(e)[key] by {
                let j = entries_index(ce, key);
                lemma_entries_index(ce, j);
                assert(ce[j].0@ == e[j].0@);
                lemma_entries_index(e, j);
            }
        }
        TagSet { names, values }
    }
}

impl TagSet {
    #[verifier::type_invariant]
    spec fn well_formed(self) -> bool {
        &&& self.names@.len() == self.values@.len()
        &&& names_distinct(self.names@)
    }

    /// The entries, in the order in which their tags were first set.
    pub closed spec fn entries_seq(self) -> Seq<(String, TagValue)> {
        zip_entries(self.names@, self.values@)
    }

    /// Returns a new empty tag set.
    pub fn new() -> (r: Self)
        ensures
            r@ == Map::<Seq<char>, TagValueView>::empty(),
    {
        let r = TagSet { names: Vec::new(), values: Vec::new() };
        assert(r@ =~= Map::<Seq<char>, TagValueView>::empty());
        r
    }

    /// Position of the tag of the given name.
    fn find(&self, tag_name: &str) -> (r: Option<usize>)
        ensures
            match r {
                Some(i) => i < self.names@.len() && self.names@[i as int]@ == tag_name@,
                None => forall|j: int| 0 <= j < self.names@.len() ==> #[trigger] self.names@[j]@
                    != tag_name@,
            },
    {
        let mut i: usize = 0;
        while i < self.names.len()
            invariant
                i <= self.names@.len(),
                forall|j: int| 0 <= j < i ==> #[trigger] self.names@[j]@ != tag_name@,
            decreases self.names@.len() - i,
        {
            if str_equal(self.names[i].as_str(), tag_name) {
                return Some(i);
            }
            i = i + 1;
        }
        None
    }

    /// Returns the value for a tag given its name.
    pub fn get(&self, tag_name: &str) -> (r: Option<&TagValue>)
        ensures
            match r {
                Some(v) => self@.contains_key(tag_name@) && self@[tag_name@] == v@,
                None => !self@.contains_key(tag_name@),
            },
    {
        proof {
            use_type_invariant(self);
            lemma_zip_distinct(self.names@, self.values@);
        }
        match self.find(tag_name) {
            Some(i) => {
                proof {
                    lemma_entries_index(self.entries_seq(), i as int);
                }
                Some(&self.values[i])
            },
            None => {
                assert(!entries_have(self.entries_seq(), tag_name@)) by {
                    if entries_have(self.entries_seq(), tag_name@) {
                        let j = entries_index(self.entries_seq(), tag_name@);
                        assert(self.names@[j]@ != tag_name@);
                    }
                }
                None
            },
        }
    }

    /// Returns the authors list.
    pub fn authors(&self) -> (r: &[String])
        ensures
            strs_view(r@) == str_list_of(self@.get("author"@)),
    {
        match self.get("author") {
            Some(v) => match v.as_str_list() {
                Some(l) => l,
                None => &[],
            },
            None => &[],
        }
    }

    /// Returns the inventors list.
    pub fn inventors(&self) -> (r: &[String])
        ensures
            strs_view(r@) == str_list_of(self@.get("inventor"@)),
    {
        match self.get("inventor") {
            Some(v) => match v.as_str_list() {
                Some(l) => l,
                None => &[],
            },
            None => &[],
        }
    }

    /// Returns the URL of the puzzle's WCA page.
    pub fn wca_url(&self) -> (r: Option<String>)
        ensures
            match str_of(self@.get("external/wca"@)) {
                Some(id) => r is Some && r->0@ == wca_url_for(id),
                None => r is None,
            },
    {
        let wca_id = match self.get("external/wca") {
            Some(v) => match v.as_str() {
                Some(s) => s,
                None => return None,
            },
            None => return None,
        };
        let mut url = String::from_str("https://www.worldcubeassociation.org/results/rankings/");
        url.append(wca_id);
        url.append("/single");
        Some(url)
    }

    /// Returns the filename where the puzzle was defined, or `"<unknown>"` if
    /// it cannot be found.
    pub fn filename(&self) -> (r: Option<&str>)
        ensures
            r is Some,
            r->0@ == match str_of(self@.get("file"@)) {
                Some(f) => f,
                None => "<unknown>"@,
            },
    {
        match self.get("file") {
            Some(v) => match v.as_str() {
                Some(f) => Some(f),
                None => Some("<unknown>"),
            },
            None => Some("<unknown>"),
        }
    }

    /// Returns whether the tag set contains the "experimental" tag.
    pub fn is_experimental(&self) -> (r: bool)
        ensures
            r == (self@.contains_key("experimental"@) && self@["experimental"@].spec_is_present()),
    {
        match self.get("experimental") {
            Some(v) => v.is_present(),
            None => false,
        }
    }

    /// Returns whether a tag set meets a search criterion. If `value` is
    /// `None`, returns whether the tag is present; an absent tag counts as
    /// `False`.
    pub fn meets_search_criterion(&self, tag: &str, value: Option<&str>) -> (r: bool)
        ensures
            r == (if self@.contains_key(tag@) {
                self@[tag@]
            } else {
                TagValueView::False
            }).spec_meets(
                match value {
                    Some(s) => Some(s@),
                    None => None,
                },
            ),
    {
        match self.get(tag) {
            Some(v) => v.meets_search_criterion(value),
            None => TagValue::False.meets_search_criterion(value),
        }
    }

    /// Returns the tags in the tag set with their values, in the order in
    /// which they were first set.
    pub fn iter(&self) -> (r: Vec<(&String, &TagValue)>)
        ensures
            deref_pairs(r@) == self.entries_seq(),
            entries_distinct(self.entries_seq()),
            entries_map(self.entries_seq()) == self@,
            self@.dom().finite(),
    {
        proof {
            use_type_invariant(self);
            lemma_zip_distinct(self.names@, self.values@);
            let e = self.entries_seq();
            let keys = e.map_values(|x: (String, TagValue)| x.0@);
            assert(self@.dom() =~= keys.to_set()) by {
                assert forall|k: Seq<char>| self@.dom().contains(k) implies keys.to_set().contains(k) by {
                    let j = entries_index(e, k);
                    assert(keys[j] == k);
                }
                assert forall|k: Seq<char>| keys.to_set().contains(k) implies self@.dom().contains(k) by {
                    let j = choose|j: int| 0 <= j < keys.len() && keys[j] == k;
                    assert(e[j].0@ == k);
                }
            }
            vstd::seq_lib::seq_to_set_is_finite(keys);
        }
        let mut r: Vec<(&String, &TagValue)> = Vec::new();
        let mut k: usize = 0;
        while k < self.names.len()
            invariant
                k <= self.names@.len(),
                self.names@.len() == self.values@.len(),
                deref_pairs(r@) == self.entries_seq().take(k as int),
            decreases self.names@.len() - k,
        {
            let ghost before = r@;
            r.push((&self.names[k], &self.values[k]));
            assert(deref_pairs(r@) =~= deref_pairs(before).push((self.names@[k as int], self.values@[k as int])));
            assert(self.entries_seq().take(k + 1) =~= self.entries_seq().take(k as int).push(
                self.entries_seq()[k as int],
            ));
            k = k + 1;
        }
        assert(self.entries_seq().take(self.names@.len() as int) =~= self.entries_seq());
        r
    }

    /// Returns the entries that are written out when the set is saved: all
    /// but those whose value is `Inherited`, in order.
    pub fn serialized_entries(&self) -> (r: Vec<(&String, &TagValue)>)
        ensures
            deref_pairs(r@) == not_inherited(self.entries_seq()),
    {
        proof {
            use_type_invariant(self);
        }
        let mut r: Vec<(&String, &TagValue)> = Vec::new();
        let mut k: usize = 0;
        while k < self.names.len()
            invariant
                k <= self.names@.len(),
                self.names@.len() == self.values@.len(),
                deref_pairs(r@) == not_inherited(self.entries_seq().take(k as int)),
            decreases self.names@.len() - k,
        {
            let ghost before = r@;
            let ghost e = self.entries_seq();
            assert(e.take(k + 1).drop_last() =~= e.take(k as int));
            assert(e.take(k + 1).last() == (self.names@[k as int], self.values@[k as int]));
            match self.values[k] {
                TagValue::Inherited => {},
                _ => {
                    r.push((&self.names[k], &self.values[k]));
                    assert(deref_pairs(r@) =~= deref_pairs(before).push(
                        (self.names@[k as int], self.values@[k as int]),
                    ));
                },
            }
            k = k + 1;
        }
        assert(self.entries_seq().take(self.names@.len() as int) =~= self.entries_seq());
        r
    }

    /// Position of the tag of the given name, after giving it the value
    /// `default` if the set did not have it.
    fn position_or_insert(&mut self, name: &String, default: TagValue) -> (i: usize)
        ensures
            i < final(self).names@.len(),
            final(self).names@[i as int]@ == name@,
            final(self)@ == (if old(self)@.contains_key(name@) {
                old(self)@
            } else {
                old(self)@.insert(name@, default@)
            }),
    {
        proof {
            use_type_invariant(&*self);
            lemma_zip_distinct(self.names@, self.values@);
        }
        match self.find(name.as_str()) {
            Some(i) => {
                proof {
                    lemma_entries_index(self.entries_seq(), i as int);
                }
                i
            },
            None => {
                assert(!entries_have(self.entries_seq(), name@)) by {
                    if entries_have(self.entries_seq(), name@) {
                        let j = entries_index(self.entries_seq(), name@);
                        assert(self.names@[j]@ != name@);
                    }
                }
                let mut taken = TagSet::new();
                std::mem::swap(&mut taken, self);
                proof {
                    use_type_invariant(&taken);
                }
                let TagSet { mut names, mut values } = taken;
                let ghost old_names = names@;
                let ghost old_values = values@;
                let i = names.len();
                names.push(name.clone());
                values.push(default);
                proof {
                    lemma_zip_push(old_names, old_values, names@[i as int], values@[i as int]);
                }
                let mut fresh = TagSet { names, values };
                std::mem::swap(self, &mut fresh);
                i
            },
        }
    }

    /// Sets the value of a tag, replacing any value it had.
    fn set_value(&mut self, name: &String, value: TagValue)
        ensures
            final(self)@ == old(self)@.insert(name@, value@),
    {
        proof {
            use_type_invariant(&*self);
        }
        let found = self.find(name.as_str());
        let mut taken = TagSet::new();
        std::mem::swap(&mut taken, self);
        proof {
            use_type_invariant(&taken);
        }
        let TagSet { mut names, mut values } = taken;
        let ghost old_names = names@;
        let ghost old_values = values@;
        match found {
            Some(i) => {
                values.set(i, value);
                proof {
                    lemma_zip_update_value(old_names, old_values, i as int, values@[i as int]);
                    assert(values@ == old_values.update(i as int, values@[i as int]));
                }
            },
            None => {
                let n = names.len();
                names.push(name.clone());
                values.push(value);
                proof {
                    lemma_zip_push(old_names, old_values, names@[n as int], values@[n as int]);
                }
            },
        }
        let mut fresh = TagSet { names, values };
        std::mem::swap(self, &mut fresh);
    }

    /// Returns the value of a tag that the set has, to read or change in
    /// place; `None`, with nothing inserted, for a tag it does not have.
    /// What is written through the reference becomes the tag's value.
    pub fn entry(&mut self, tag: &TagData) -> (r: Option<&mut TagValue>)
        ensures
            old(self)@.contains_key(tag.name@) <==> r is Some,
            match r {
                Some(v) => {
                    &&& (*v)@ == old(self)@[tag.name@]
                    &&& final(self)@ == old(self)@.insert(tag.name@, (*final(v))@)
                },
                None => final(self)@ == old(self)@,
            },
    {
        proof {
            use_type_invariant(&*self);
            lemma_zip_distinct(self.names@, self.values@);
        }
        match self.find(tag.name.as_str()) {
            Some(i) => {
                proof {
                    lemma_entries_index(self.entries_seq(), i as int);
                    assert forall|x: TagValue| #[trigger]
                        entries_map(zip_entries(self.names@, self.values@.update(i as int, x)))
                            == old(self)@.insert(tag.name@, x@) by {
                        lemma_zip_update_value(self.names@, self.values@, i as int, x);
                    }
                }
                Some(&mut self.values[i])
            },
            None => {
                assert(!entries_have(self.entries_seq(), tag.name@)) by {
                    if entries_have(self.entries_seq(), tag.name@) {
                        let j = entries_index(self.entries_seq(), tag.name@);
                        assert(self.names@[j]@ != tag.name@);
                    }
                }
                None
            },
        }
    }

    /// Returns the value of a tag, after giving it the value `default` if the
    /// set did not have it. What is written through the reference becomes the
    /// tag's value.
    pub fn get_or_insert(&mut self, tag: &TagData, default: TagValue) -> (r: &mut TagValue)
        ensures
            (*r)@ == (if old(self)@.contains_key(tag.name@) {
                old(self)@[tag.name@]
            } else {
                default@
            }),
            final(self)@ == old(self)@.insert(tag.name@, (*final(r))@),
    {
        let i = self.position_or_insert(&tag.name, default);
        proof {
            use_type_invariant(&*self);
            lemma_zip_distinct(self.names@, self.values@);
            lemma_entries_index(self.entries_seq(), i as int);
            assert forall|x: TagValue| #[trigger]
                entries_map(zip_entries(self.names@, self.values@.update(i as int, x)))
                    == old(self)@.insert(tag.name@, x@) by {
                lemma_zip_update_value(self.names@, self.values@, i as int, x);
                assert(self@.insert(tag.name@, x@) =~= old(self)@.insert(tag.name@, x@));
            }
        }
        &mut self.values[i]
    }

    /// Returns the value of a tag given its name, as `entry` does, if the
    /// registry knows a tag of that name; otherwise the set stays as it is
    /// and the error names the tag.
    pub fn entry_named(&mut self, registry: &TagRegistry, tag_name: &str) -> (r: Result<
        Option<&mut TagValue>,
        UnknownTag,
    >)
        ensures
            registry.knows(tag_name@) <==> r is Ok,
            match r {
                Ok(Some(v)) => {
                    &&& old(self)@.contains_key(tag_name@)
                    &&& (*v)@ == old(self)@[tag_name@]
                    &&& final(self)@ == old(self)@.insert(tag_name@, (*final(v))@)
                },
                Ok(None) => !old(self)@.contains_key(tag_name@) && final(self)@ == old(self)@,
                Err(e) => e.0@ == tag_name@ && final(self)@ == old(self)@,
            },
    {
        match registry.get(tag_name) {
            Ok(tag) => Ok(self.entry(tag)),
            Err(e) => Err(e),
        }
    }

    /// Adds a tag to the tag set, replacing any value it had.
    pub fn insert(&mut self, tag: &TagData, value: TagValue)
        ensures
            final(self)@ == old(self)@.insert(tag.name@, value@),
    {
        self.set_value(&tag.name, value);
    }

    /// Adds a tag to the tag set by name, if the registry knows a tag of that
    /// name; otherwise the set stays as it is and the error names the tag.
    pub fn insert_named(&mut self, registry: &TagRegistry, tag_name: &str, value: TagValue) -> (r:
        Result<(), UnknownTag>)
        ensures
            registry.knows(tag_name@) ==> r is Ok && final(self)@ == old(self)@.insert(
                tag_name@,
                value@,
            ),
            !registry.knows(tag_name@) ==> r is Err && r->Err_0.0@ == tag_name@ && final(self)@
                == old(self)@,
    {
        match registry.get(tag_name) {
            Ok(tag) => {
                self.insert(tag, value);
                Ok(())
            },
            Err(e) => Err(e),
        }
    }
}

/// Setting a tag and then reading it gives the value set; every other tag
/// keeps its value.
pub proof fn law_insert_then_get(
    m: Map<Seq<char>, TagValueView>,
    name: Seq<char>,
    v: TagValueView,
    other: Seq<char>,
)
    ensures
        m.insert(name, v).contains_key(name),
        m.insert(name, v)[name] == v,
        other != name ==> m.insert(name, v).contains_key(other) == m.contains_key(other),
        other != name && m.contains_key(other) ==> m.insert(name, v)[other] == m[other],
{
}

/// With no value given, a search criterion asks whether the tag is present;
/// an absent tag, read as `False`, never is.
pub proof fn law_criterion_without_value(v: TagValueView)
    ensures
        v.spec_meets(None) == v.spec_is_present(),
        !TagValueView::False.spec_meets(None),
{
}

/// Whether an entry is written out when its set is saved: every value but
/// `Inherited` is.
pub open spec fn not_inherited_entry() -> spec_fn((String, TagValue)) -> bool {
    |e: (String, TagValue)| !(e.1 is Inherited)
}

/// A string tag meets a search for a value exactly when the value is its
/// string; a puzzle reference likewise; a list of strings when the value is
/// one of them; the flags when the value is `"true"` (`True`, `Inherited`) or
/// `"false"` (`False`); an integer when the value reads as that integer.
pub proof fn law_criterion_with_value(s: Seq<char>, t: Seq<char>, l: Seq<Seq<char>>, i: i64)
    ensures
        TagValueView::Str(t).spec_meets(Some(s)) <==> s == t,
        TagValueView::Puzzle(t).spec_meets(Some(s)) <==> s == t,
        TagValueView::StrList(l).spec_meets(Some(s)) <==> exists|k: int| 0 <= k < l.len() && l[k] == s,
        TagValueView::True.spec_meets(Some(s)) <==> s == "true"@,
        TagValueView::Inherited.spec_meets(Some(s)) <==> s == "true"@,
        TagValueView::False.spec_meets(Some(s)) <==> s == "false"@,
        TagValueView::Int(i).spec_meets(Some(s)) <==> spec_parse_i64(s) == Some(i as int),
{
}

/// Every value but `False` counts as present, `Inherited` included.
pub proof fn law_present_unless_false(v: TagValueView)
    ensures
        v.spec_is_present() <==> v != TagValueView::False,
{
}

/// A tag set whose tag `tag` holds the string `t` meets the criterion
/// `tag=s` exactly when `s` is `t` (`meets_search_criterion` gives the
/// criterion of the tag's value, or of `False` for an absent tag).
pub proof fn law_set_meets_string_tag(m: Map<Seq<char>, TagValueView>, tag: Seq<char>, t: Seq<char>, s: Seq<char>)
    requires
        m.contains_key(tag),
        m[tag] == TagValueView::Str(t),
    ensures
        (if m.contains_key(tag) {
            m[tag]
        } else {
            TagValueView::False
        }).spec_meets(Some(s)) <==> s == t,
{
}

/// The entries written out when a tag set is saved are exactly its
/// entries whose value is not `Inherited`, in order: `False` values are
/// written too.
pub proof fn law_serialized_all_but_inherited(entries: Seq<(String, TagValue)>)
    ensures
        not_inherited(entries) == entries.filter(not_inherited_entry()),
        forall|i: int|
            0 <= i < entries.len() && !(entries[i].1 is Inherited) ==> not_inherited(entries).contains(
                #[trigger] entries[i],
            ),
        forall|i: int|
            0 <= i < not_inherited(entries).len() ==> !(#[trigger] not_inherited(entries)[i].1 is Inherited),
    decreases entries.len(),
{
    reveal(Seq::filter);
    if entries.len() > 0 {
        law_serialized_all_but_inherited(entries.drop_last());
        assert(not_inherited_entry()(entries.last()) == !(entries.last().1 is Inherited));
    } else {
        assert(not_inherited(entries) =~= entries.filter(not_inherited_entry()));
    }
    assert(not_inherited(entries) == entries.filter(not_inherited_entry()));
    assert forall|i: int| 0 <= i < entries.len() && !(entries[i].1 is Inherited) implies not_inherited(
        entries,
    ).contains(#[trigger] entries[i]) by {
        entries.lemma_filter_contains(not_inherited_entry(), i);
    }
    assert forall|i: int| 0 <= i < not_inherited(entries).len() implies !(#[trigger] not_inherited(
        entries,
    )[i].1 is Inherited) by {
        assert(not_inherited(entries) == entries.filter(not_inherited_entry()));
        entries.lemma_filter_pred(not_inherited_entry(), i);
    }
}

/// The readers of the tag set take a string list only from a string-list
/// value, a string only from a string value, and build the WCA address
/// around the ID; anything else reads as nothing.
pub proof fn law_tag_readers(v: TagValueView, l: Seq<Seq<char>>, t: Seq<char>, id: Seq<char>)
    ensures
        str_list_of(Some(TagValueView::StrList(l))) == l,
        !(v is StrList) ==> str_list_of(Some(v)).len() == 0,
        str_list_of(None).len() == 0,
        str_of(Some(TagValueView::Str(t))) == Some(t),
        !(v is Str) ==> str_of(Some(v)) is None,
        str_of(None) is None,
        wca_url_for(id) == "https://www.worldcubeassociation.org/results/rankings/"@ + id
            + "/single"@,
{
}

} // verus!
