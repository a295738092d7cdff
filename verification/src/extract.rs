use vstd::prelude::*;

use crate::difficulty::Difficulty;
use crate::puzzle::Puzzle;

verus! {

/// The key under which the service reports the puzzle identifier.
pub open spec fn key_pid() -> Seq<u8> {
    seq!['p' as u8, 'i' as u8, 'd' as u8]
}

/// The key under which the service reports the 81-digit solution string.
pub open spec fn key_cheat() -> Seq<u8> {
    seq!['c' as u8, 'h' as u8, 'e' as u8, 'a' as u8, 't' as u8]
}

/// The key under which the service reports the 81-flag edit mask string.
pub open spec fn key_editmask() -> Seq<u8> {
    seq![
        'e' as u8,
        'd' as u8,
        'i' as u8,
        't' as u8,
        'm' as u8,
        'a' as u8,
        's' as u8,
        'k' as u8,
    ]
}

/// The `(id, value)` attribute pairs, as UTF-8 bytes and in document order,
/// of every input-like tag in an HTML document whose `id="<token>"` attribute
/// is followed within the tag by a `value="<digits>"` attribute. The pattern
/// is matched case-insensitively and across line boundaries; what it finds is
/// a function of the document text alone.
pub uninterp spec fn input_pairs_of(html: Seq<char>) -> Seq<(Seq<u8>, Seq<u8>)>;

/// The byte-sequence view of a list of attribute pairs.
pub open spec fn pairs_view(ps: Seq<(Vec<u8>, Vec<u8>)>) -> Seq<(Seq<u8>, Seq<u8>)> {
    ps.map_values(|p: (Vec<u8>, Vec<u8>)| (p.0@, p.1@))
}

/// Relies on regex::RegexBuilder and regex::Regex::captures_iter: the
/// non-overlapping capture pairs of the fixed input-tag pattern, in document
/// order, are a function of the document text alone. Both capture groups of
/// the pattern are unconditional, so `get` returns them for every match.
#[verifier::external_body]
fn find_input_pairs(html: &str) -> (r: Vec<(Vec<u8>, Vec<u8>)>)
    ensures
        pairs_view(r@) == input_pairs_of(html@),
{
    let pattern = regex::RegexBuilder::new(r#"<input.+?id="(\S+)".+?value="(\d+)""#)
        .case_insensitive(true)
        .dot_matches_new_line(true)
        .build()
        .unwrap();
    pattern.captures_iter(html).map(
        |c| (
            c.get(1).unwrap().as_str().as_bytes().to_vec(),
            c.get(2).unwrap().as_str().as_bytes().to_vec(),
        ),
    ).collect()
}

/// The value the pair list associates with `key` once earlier pairs are
/// overwritten by later ones: the value of the last pair whose key is `key`,
/// or `None` where no pair has it.
pub open spec fn last_value_of(pairs: Seq<(Seq<u8>, Seq<u8>)>, key: Seq<u8>) -> Option<Seq<u8>>
    decreases pairs.len(),
{
    if pairs.len() == 0 {
        None
    } else if pairs.last().0 == key {
        Some(pairs.last().1)
    } else {
        last_value_of(pairs.drop_last(), key)
    }
}

/// The three required raw fields of a puzzle document — identifier, solution
/// string, edit mask string — or `None` where any of the three keys is
/// absent: one atomic failure, never a partial record.
pub open spec fn puzzle_fields(pairs: Seq<(Seq<u8>, Seq<u8>)>) -> Option<
    (Seq<u8>, Seq<u8>, Seq<u8>),
> {
    match (last_value_of(pairs, key_pid()), last_value_of(pairs, key_cheat()), last_value_of(
        pairs,
        key_editmask(),
    )) {
        (Some(id), Some(cheat), Some(em)) => Some((id, cheat, em)),
        _ => None,
    }
}

/// The solution value a raw solution-string byte stands for: the byte minus
/// the byte value of `'0'`, wrapping, with no digit-class or range check.
pub open spec fn digit_of(b: u8) -> u8 {
    if b >= '0' as u8 {
        (b - '0' as u8) as u8
    } else {
        (b + 208) as u8
    }
}

/// The solution values of a raw solution string, position by position.
pub open spec fn digits_of(s: Seq<u8>) -> Seq<u8> {
    s.map_values(|b: u8| digit_of(b))
}

/// The mask flags of a raw edit mask string: a cell is editable exactly where
/// its byte is `'1'`; any other byte, malformed ones included, marks it given.
pub open spec fn mask_flags_of(s: Seq<u8>) -> Seq<bool> {
    s.map_values(|b: u8| b == '1' as u8)
}

/// True of two byte vectors with equal contents.
fn bytes_eq(a: &Vec<u8>, b: &Vec<u8>) -> (r: bool)
    ensures
        r == (a@ == b@),
{
    if a.len() != b.len() {
        return false;
    }
    let mut i: usize = 0;
    while i < a.len()
        invariant
            i <= a.len(),
            a@.len() == b@.len(),
            forall|j: int| 0 <= j < i ==> a@[j] == b@[j],
        decreases a.len() - i,
    {
        if a[i] != b[i] {
            return false;
        }
        i = i + 1;
    }
    proof {
        assert(a@ =~= b@);
    }
    true
}

/// Copies a byte vector.
fn copy_bytes(v: &Vec<u8>) -> (r: Vec<u8>)
    ensures
        r@ == v@,
{
    let mut r: Vec<u8> = Vec::new();
    let mut i: usize = 0;
    while i < v.len()
        invariant
            i <= v.len(),
            r@ == v@.subrange(0, i as int),
        decreases v.len() - i,
    {
        r.push(v[i]);
        proof {
            assert(r@ =~= v@.subrange(0, i as int + 1));
        }
        i = i + 1;
    }
    proof {
        assert(r@ =~= v@);
    }
    r
}

/// Looks `key` up in the pair list under last-write-wins semantics, as a map
/// built by inserting the pairs in order would resolve it.
fn lookup(pairs: &Vec<(Vec<u8>, Vec<u8>)>, key: &Vec<u8>) -> (r: Option<Vec<u8>>)
    ensures
        match r {
            Some(v) => last_value_of(pairs_view(pairs@), key@) == Some(v@),
            None => last_value_of(pairs_view(pairs@), key@) is None,
        },
{
    let mut i: usize = pairs.len();
    proof {
        assert(pairs_view(pairs@).take(i as int) =~= pairs_view(pairs@));
    }
    while i > 0
        invariant
            i <= pairs.len(),
            last_value_of(pairs_view(pairs@), key@) == last_value_of(
                pairs_view(pairs@).take(i as int),
                key@,
            ),
        decreases i,
    {
        i = i - 1;
        let hit = bytes_eq(&pairs[i].0, key);
        proof {
            let pv = pairs_view(pairs@);
            assert(pv.take(i as int + 1).last() == pv[i as int]);
            assert(pv.take(i as int + 1).drop_last() =~= pv.take(i as int));
        }
        if hit {
            return Some(copy_bytes(&pairs[i].1));
        }
    }
    proof {
        assert(pairs_view(pairs@).take(0) =~= Seq::<(Seq<u8>, Seq<u8>)>::empty());
    }
    None
}

/// The key bytes of the puzzle identifier field.
fn key_pid_bytes() -> (r: Vec<u8>)
    ensures
        r@ == key_pid(),
{
    let mut v: Vec<u8> = Vec::new();
    v.push('p' as u8);
    v.push('i' as u8);
    v.push('d' as u8);
    proof {
        assert(v@ =~= key_pid());
    }
    v
}

/// The key bytes of the solution-string field.
fn key_cheat_bytes() -> (r: Vec<u8>)
    ensures
        r@ == key_cheat(),
{
    let mut v: Vec<u8> = Vec::new();
    v.push('c' as u8);
    v.push('h' as u8);
    v.push('e' as u8);
    v.push('a' as u8);
    v.push('t' as u8);
    proof {
        assert(v@ =~= key_cheat());
    }
    v
}

/// The key bytes of the edit-mask field.
fn key_editmask_bytes() -> (r: Vec<u8>)
    ensures
        r@ == key_editmask(),
{
    let mut v: Vec<u8> = Vec::new();
    v.push('e' as u8);
    v.push('d' as u8);
    v.push('i' as u8);
    v.push('t' as u8);
    v.push('m' as u8);
    v.push('a' as u8);
    v.push('s' as u8);
    v.push('k' as u8);
    proof {
        assert(v@ =~= key_editmask());
    }
    v
}

/// Converts a raw solution string to solution values, byte by byte.
fn solution_from_raw(s: &Vec<u8>) -> (r: Vec<u8>)
    ensures
        r@ == digits_of(s@),
{
    let mut r: Vec<u8> = Vec::new();
    let mut i: usize = 0;
    while i < s.len()
        invariant
            i <= s.len(),
            r@.len() == i,
            forall|j: int| 0 <= j < i ==> r@[j] == digit_of(s@[j]),
        decreases s.len() - i,
    {
        let b = s[i];
        if b >= '0' as u8 {
            r.push(b - '0' as u8);
        } else {
            r.push(b + 208);
        }
        i = i + 1;
    }
    proof {
        assert(r@ =~= digits_of(s@));
    }
    r
}

/// Converts a raw edit mask string to mask flags, byte by byte.
fn mask_from_raw(s: &Vec<u8>) -> (r: Vec<bool>)
    ensures
        r@ == mask_flags_of(s@),
{
    let mut r: Vec<bool> = Vec::new();
    let mut i: usize = 0;
    while i < s.len()
        invariant
            i <= s.len(),
            r@.len() == i,
            forall|j: int| 0 <= j < i ==> r@[j] == (s@[j] == '1' as u8),
        decreases s.len() - i,
    {
        r.push(s[i] == '1' as u8);
        i = i + 1;
    }
    proof {
        assert(r@ =~= mask_flags_of(s@));
    }
    r
}

/// The extractor component: scans an HTML document for `id`/`value` attribute
/// pairs and assembles a puzzle record from the three required fields.
pub struct PuzzleExtractor {}

impl PuzzleExtractor {
    pub fn new() -> (r: PuzzleExtractor) {
        PuzzleExtractor {}
    }

    /// Extracts a puzzle record from a raw HTML document. The document's
    /// attribute pairs are read into a last-write-wins mapping; extraction
    /// succeeds exactly where all three required keys are present, and the
    /// record then carries the identifier as-is, the solution string
    /// converted byte-wise by `digit_of`, and the edit mask converted
    /// byte-wise to flags.
    pub fn extract(&self, difficulty: Difficulty, content: &str) -> (r: Option<Puzzle>)
        ensures
            (r is Some) <==> (puzzle_fields(input_pairs_of(content@)) is Some),
            r is Some ==> {
                let (id, cheat, em) = puzzle_fields(input_pairs_of(content@)).unwrap();
                &&& r.unwrap().difficulty == difficulty
                &&& r.unwrap().id@ == id
                &&& r.unwrap().solution@ == digits_of(cheat)
                &&& r.unwrap().mask@ == mask_flags_of(em)
            },
    {
        let pairs = find_input_pairs(content);
        let id = match lookup(&pairs, &key_pid_bytes()) {
            Some(v) => v,
            None => {
                return None;
            },
        };
        let cheat = match lookup(&pairs, &key_cheat_bytes()) {
            Some(v) => v,
            None => {
                return None;
            },
        };
        let em = match lookup(&pairs, &key_editmask_bytes()) {
            Some(v) => v,
            None => {
                return None;
            },
        };
        Some(
            Puzzle {
                difficulty,
                id,
                solution: solution_from_raw(&cheat),
                mask: mask_from_raw(&em),
            },
        )
    }
}

/// Any 81-byte solution string over the digits `'1'`–`'9'` and any 81-byte
/// edit mask string decode positionally: each solution value is its byte's
/// distance from `'0'`, and each mask flag is true exactly where its byte is
/// `'1'`.
pub proof fn lemma_well_formed_fields_decode(cheat: Seq<u8>, editmask: Seq<u8>)
    requires
        cheat.len() == 81,
        forall|i: int| 0 <= i < 81 ==> '1' as u8 <= #[trigger] cheat[i] <= '9' as u8,
        editmask.len() == 81,
    ensures
        digits_of(cheat).len() == 81,
        forall|i: int| 0 <= i < 81 ==> digits_of(cheat)[i] == cheat[i] - '0' as u8,
        mask_flags_of(editmask).len() == 81,
        forall|i: int| 0 <= i < 81 ==> mask_flags_of(editmask)[i] == (editmask[i] == '1' as u8),
{
}

/// A document whose pair list never carries the solution-string key yields no
/// puzzle record, whatever its other fields hold: the three required fields
/// fail as one.
pub proof fn lemma_missing_cheat_yields_none(pairs: Seq<(Seq<u8>, Seq<u8>)>)
    requires
        last_value_of(pairs, key_cheat()) is None,
    ensures
        puzzle_fields(pairs) is None,
{
}

} // verus!
