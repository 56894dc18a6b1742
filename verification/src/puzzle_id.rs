//! Puzzle IDs: reading the ID of a generated puzzle, and the sequence of
//! lookups and redirects that building a puzzle by ID goes through.
use vstd::prelude::*;

use crate::tags::strs_view;

verus! {

/// Position of the first `c` in `s`, if any.
pub open spec fn index_of_char(s: Seq<char>, c: char) -> Option<int>
    decreases s.len(),
{
    if s.len() == 0 {
        None
    } else if s[0] == c {
        Some(0)
    } else {
        match index_of_char(s.drop_first(), c) {
            Some(i) => Some(i + 1),
            None => None,
        }
    }
}

/// The first `c` stands where `index_of_char` says, and nowhere before.
pub proof fn lemma_index_of_char(s: Seq<char>, c: char)
    ensures
        match index_of_char(s, c) {
            Some(i) => 0 <= i < s.len() && s[i] == c && forall|j: int| 0 <= j < i ==> s[j] != c,
            None => forall|j: int| 0 <= j < s.len() ==> s[j] != c,
        },
    decreases s.len(),
{
    if s.len() > 0 && s[0] != c {
        lemma_index_of_char(s.drop_first(), c);
        match index_of_char(s.drop_first(), c) {
            Some(i) => {
                assert forall|j: int| 0 <= j < i + 1 implies s[j] != c by {
                    if j > 0 {
                        assert(s[j] == s.drop_first()[j - 1]);
                    }
                }
            },
            None => {
                assert forall|j: int| 0 <= j < s.len() implies s[j] != c by {
                    if j > 0 {
                        assert(s[j] == s.drop_first()[j - 1]);
                    }
                }
            },
        }
    }
}

/// A `c` at `i` with none before it is the first.
pub proof fn lemma_index_of_char_at(s: Seq<char>, c: char, i: int)
    requires
        0 <= i <= s.len(),
        i < s.len() ==> s[i] == c,
        forall|j: int| 0 <= j < i ==> s[j] != c,
    ensures
        index_of_char(s, c) == if i < s.len() {
            Some(i)
        } else {
            None::<int>
        },
{
    lemma_index_of_char(s, c);
    match index_of_char(s, c) {
        Some(k) => {
            if k < i {
                assert(s[k] != c);
            }
            if k > i && i < s.len() {
                assert(s[i] != c);
            }
        },
        None => {
            if i < s.len() {
                assert(s[i] != c);
            }
        },
    }
}

/// The pieces of `s` between the occurrences of `c`.
pub open spec fn split_on(s: Seq<char>, c: char) -> Seq<Seq<char>>
    decreases s.len(),
{
    match index_of_char(s, c) {
        None => seq![s],
        Some(i) => {
            proof {
                lemma_index_of_char(s, c);
            }
            seq![s.take(i)] + split_on(s.skip(i + 1), c)
        },
    }
}

/// The pieces joined again, with `c` between each two.
pub open spec fn join_with(parts: Seq<Seq<char>>, c: char) -> Seq<char>
    decreases parts.len(),
{
    if parts.len() == 0 {
        Seq::empty()
    } else if parts.len() == 1 {
        parts[0]
    } else {
        parts[0] + seq![c] + join_with(parts.drop_first(), c)
    }
}

/// Splitting loses nothing: joining the pieces gives the text back.
pub proof fn law_split_join(s: Seq<char>, c: char)
    ensures
        join_with(split_on(s, c), c) == s,
        split_on(s, c).len() >= 1,
        forall|k: int|
            0 <= k < split_on(s, c).len() ==> !(#[trigger] split_on(s, c)[k]).contains(c),
    decreases s.len(),
{
    lemma_index_of_char(s, c);
    match index_of_char(s, c) {
        None => {
            assert(split_on(s, c) == seq![s]);
            assert(!s.contains(c));
        },
        Some(i) => {
            let rest = s.skip(i + 1);
            law_split_join(rest, c);
            let p = split_on(s, c);
            assert(p == seq![s.take(i)] + split_on(rest, c));
            assert(p.drop_first() =~= split_on(rest, c));
            assert(s =~= s.take(i) + seq![c] + rest);
            assert forall|k: int| 0 <= k < p.len() implies !(#[trigger] p[k]).contains(c) by {
                if k == 0 {
                    if s.take(i).contains(c) {
                        let j = choose|j: int| 0 <= j < i && s.take(i)[j] == c;
                        assert(s[j] == c);
                    }
                } else {
                    assert(p[k] == split_on(rest, c)[k - 1]);
                }
            }
        },
    }
}

/// The generator ID and parameters that a generated puzzle's ID holds: the
/// text before the first `:`, and the text after it split at each `,`.
pub open spec fn spec_parse_generated_id(id: Seq<char>) -> Option<(Seq<char>, Seq<Seq<char>>)> {
    match index_of_char(id, ':') {
        None => None,
        Some(i) => Some((id.take(i), split_on(id.skip(i + 1), ','))),
    }
}

/// Reading a generated puzzle's ID loses nothing: the generator ID, `:` and
/// the parameters joined by `,` give the ID back.
pub proof fn law_parse_generated_id_round_trip(id: Seq<char>)
    requires
        spec_parse_generated_id(id) is Some,
    ensures
        ({
            let (g, params) = spec_parse_generated_id(id)->0;
            &&& id == g + seq![':'] + join_with(params, ',')
            &&& !g.contains(':')
        }),
{
    lemma_index_of_char(id, ':');
    let i = index_of_char(id, ':')->0;
    law_split_join(id.skip(i + 1), ',');
    assert(id =~= id.take(i) + seq![':'] + id.skip(i + 1));
    if id.take(i).contains(':') {
        let j = choose|j: int| 0 <= j < i && id.take(i)[j] == ':';
        assert(id[j] == ':');
    }
}

/// Splits a text at each `c`.
pub fn split_chars(s: &str, c: char) -> (r: Vec<String>)
    ensures
        strs_view(r@) == split_on(s@, c),
{
    let n = s.unicode_len();
    let mut parts: Vec<String> = Vec::new();
    let mut start: usize = 0;
    let mut k: usize = 0;
    assert(s@.skip(0) =~= s@);
    while k < n
        invariant
            n == s@.len(),
            start <= k <= n,
            strs_view(parts@) + split_on(s@.skip(start as int), c) == split_on(s@, c),
            forall|j: int| start <= j < k ==> s@[j] != c,
        decreases n - k,
    {
        if s.get_char(k) == c {
            let piece = s.substring_char(start, k).to_owned();
            proof {
                let t = s@.skip(start as int);
                assert forall|j: int| 0 <= j < k - start implies t[j] != c by {
                    assert(t[j] == s@[start + j]);
                }
                lemma_index_of_char_at(t, c, k - start);
                assert(t.take(k - start) =~= s@.subrange(start as int, k as int));
                assert(t.skip(k - start + 1) =~= s@.skip(k + 1));
                assert(split_on(t, c) == seq![t.take(k - start)] + split_on(t.skip(k - start + 1), c));
            }
            let ghost before = parts@;
            parts.push(piece);
            proof {
                assert(strs_view(parts@) =~= strs_view(before).push(piece@));
                assert(strs_view(parts@) + split_on(s@.skip(k + 1), c) =~= strs_view(before)
                    + split_on(s@.skip(start as int), c));
            }
            start = k + 1;
        }
        k = k + 1;
    }
    let last = s.substring_char(start, n).to_owned();
    proof {
        let t = s@.skip(start as int);
        assert forall|j: int| 0 <= j < t.len() implies t[j] != c by {
            assert(t[j] == s@[start + j]);
        }
        lemma_index_of_char_at(t, c, t.len() as int);
        assert(t =~= s@.subrange(start as int, n as int));
    }
    let ghost before = parts@;
    parts.push(last);
    assert(strs_view(parts@) =~= strs_view(before).push(last@));
    assert(strs_view(parts@) =~= strs_view(before) + split_on(s@.skip(start as int), c));
    parts
}

/// Reads the ID of a generated puzzle (such as `ft_cube:3`) into the ID of
/// its generator and its parameters, or `None` if the ID has no `:`.
pub fn parse_generated_puzzle_id(id: &str) -> (r: Option<(String, Vec<String>)>)
    ensures
        match spec_parse_generated_id(id@) {
            Some((g, params)) => r matches Some((rg, rp)) && rg@ == g && strs_view(rp@) == params,
            None => r is None,
        },
{
    let n = id.unicode_len();
    let mut i: usize = 0;
    while i < n && id.get_char(i) != ':'
        invariant
            n == id@.len(),
            i <= n,
            forall|j: int| 0 <= j < i ==> id@[j] != ':',
        decreases n - i,
    {
        i = i + 1;
    }
    proof {
        lemma_index_of_char_at(id@, ':', i as int);
    }
    if i == n {
        return None;
    }
    let generator = id.substring_char(0, i).to_owned();
    let rest = id.substring_char(i + 1, n);
    let params = split_chars(rest, ',');
    assert(generator@ =~= id@.take(i as int));
    assert(rest@ =~= id@.skip(i + 1));
    Some((generator, params))
}

/// How many times building a puzzle follows a generator's redirect before
/// giving up.
pub const MAX_PUZZLE_REDIRECTS: usize = 20;

/// What building a puzzle does next.
#[derive(Debug)]
pub enum BuildAction {
    /// Look up the puzzle with this ID among those the library defines.
    LookUpPuzzle {
        /// ID of the puzzle.
        id: String,
    },
    /// Run the generator on the parameters, for the puzzle with this ID; it
    /// gives the puzzle or a redirect to another ID.
    GeneratePuzzle {
        /// ID of the generator.
        generator_id: String,
        /// Parameters for the generator.
        params: Vec<String>,
        /// ID of the generated puzzle.
        id: String,
    },
    /// Give up: the generators redirected too many times.
    TooManyRedirects {
        /// The IDs tried, the requested one first.
        redirect_sequence: Vec<String>,
    },
}

/// The progress of building a puzzle by ID, following the redirects of
/// puzzle generators.
#[derive(Debug)]
pub struct PuzzleBuild {
    id: String,
    redirect_sequence: Vec<String>,
    redirects: usize,
}

impl PuzzleBuild {
    #[verifier::type_invariant]
    spec fn inv(self) -> bool {
        &&& self.redirects <= MAX_PUZZLE_REDIRECTS
        &&& self.redirect_sequence@.len() == self.redirects + 1
        &&& self.redirect_sequence@.last()@ == self.id@
    }

    /// The ID being built.
    pub closed spec fn current(self) -> Seq<char> {
        self.id@
    }

    /// The IDs tried so far, the requested one first.
    pub closed spec fn sequence(self) -> Seq<Seq<char>> {
        strs_view(self.redirect_sequence@)
    }

    /// How many redirects have been followed.
    pub closed spec fn redirect_count(self) -> nat {
        self.redirects as nat
    }

    /// Starts building the puzzle with ID `id`.
    pub fn new(id: &str) -> (r: Self)
        ensures
            r.current() == id@,
            r.sequence() == seq![id@],
            r.redirect_count() == 0,
    {
        let mut seq = Vec::new();
        seq.push(id.to_owned());
        let r = PuzzleBuild { id: id.to_owned(), redirect_sequence: seq, redirects: 0 };
        assert(r.sequence() =~= seq![id@]);
        r
    }

    /// Returns whether a redirect can still be followed.
    pub fn can_redirect(&self) -> (r: bool)
        ensures
            r == (self.redirect_count() < MAX_PUZZLE_REDIRECTS),
    {
        self.redirects < MAX_PUZZLE_REDIRECTS
    }

    /// Returns what to do next: give up after `MAX_PUZZLE_REDIRECTS`
    /// redirects; otherwise run the generator that the ID names, or, for an
    /// ID that names no generator, look the puzzle up.
    pub fn next_action(&self) -> (r: BuildAction)
        ensures
            self.redirect_count() == MAX_PUZZLE_REDIRECTS ==> (r matches BuildAction::TooManyRedirects {
                redirect_sequence,
            } && strs_view(redirect_sequence@) == self.sequence()),
            self.redirect_count() < MAX_PUZZLE_REDIRECTS ==> match spec_parse_generated_id(
                self.current(),
            ) {
                Some((g, ps)) => (r matches BuildAction::GeneratePuzzle { generator_id, params, id }
                    && generator_id@ == g && strs_view(params@) == ps && id@ == self.current()),
                None => (r matches BuildAction::LookUpPuzzle { id } && id@ == self.current()),
            },
    {
        proof {
            use_type_invariant(self);
        }
        if self.redirects == MAX_PUZZLE_REDIRECTS {
            let redirect_sequence = self.redirect_sequence.clone();
            assert(redirect_sequence@ =~= self.redirect_sequence@);
            return BuildAction::TooManyRedirects { redirect_sequence };
        }
        match parse_generated_puzzle_id(self.id.as_str()) {
            Some((generator_id, params)) => BuildAction::GeneratePuzzle {
                generator_id,
                params,
                id: self.id.clone(),
            },
            None => BuildAction::LookUpPuzzle { id: self.id.clone() },
        }
    }

    /// Follows a generator's redirect to another ID.
    pub fn redirect(&mut self, new_id: String)
        requires
            old(self).redirect_count() < MAX_PUZZLE_REDIRECTS,
        ensures
            final(self).current() == new_id@,
            final(self).sequence() == old(self).sequence().push(new_id@),
            final(self).redirect_count() == old(self).redirect_count() + 1,
    {
        proof {
            use_type_invariant(&*self);
        }
        let ghost old_seq = self.redirect_sequence@;
        let mut seq = self.redirect_sequence.clone();
        assert(seq@ =~= old_seq);
        seq.push(new_id.clone());
        let redirects = self.redirects + 1;
        *self = PuzzleBuild { id: new_id, redirect_sequence: seq, redirects };
        assert(strs_view(self.redirect_sequence@) =~= strs_view(old_seq).push(self.id@));
    }
}

} // verus!
