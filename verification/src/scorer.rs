//! Launcher ranking: a query matches a name when its parts, in order, embed
//! into the name as a subsequence; the score rewards word boundaries, runs of
//! adjacent hits, early hits and short names.

use vstd::prelude::*;
use vstd::arithmetic::div_mod::lemma_div_is_ordered;
use vstd::arithmetic::div_mod::lemma_div_is_ordered_by_denominator;
use vstd::arithmetic::div_mod::lemma_div_multiples_vanish;
use vstd::arithmetic::div_mod::lemma_fundamental_div_mod;
use vstd::arithmetic::mul::lemma_mul_is_commutative;
use crate::extensions::application_class;
use crate::extensions::in_application_class;
use crate::extensions::in_source_class;
use crate::extensions::lowercase_chars;
use crate::extensions::source_class;
use crate::path_utils::extension_chars;
use crate::path_utils::extension_of;
use crate::roots::floor_sqrt;
use crate::roots::isqrt;
use crate::roots::lemma_floor_sqrt_at_least;
use crate::roots::lemma_floor_sqrt_bounds;
use crate::roots::lemma_floor_sqrt_ordered;
use crate::text::chars_of;
use crate::text::contains;
use crate::text::alnum_flags;
use crate::text::alnum_flags_of;
use crate::text::known_flag;
use crate::text::is_substring;
use crate::text::lowercase_of;
use crate::text::occurs_at;
use crate::text::part_views;
use crate::text::str_views;
use crate::text::starts_with;

verus! {

/// One point of score. Scores are whole numbers of millionths of a point.
pub const POINT: i128 = 1_000_000;

/// A query of one part that the name begins with: 1000 points.
pub const PREFIX_POINTS: i128 = 1_000_000_000;

/// A query of one part that the name holds elsewhere: 500 points.
pub const SUBSTRING_POINTS: i128 = 500_000_000;

/// Each hit at a word boundary: 10 points.
pub const BOUNDARY_POINTS: i128 = 10_000_000;

/// Each step of the longest run of adjacent hits of a part: 2 points.
pub const RUN_POINTS: i128 = 2_000_000;

/// A part whose first hit is the first character of the name: 10 points,
/// and in proportion less the later it starts.
pub const EARLY_POINTS: i128 = 10_000_000;

/// The square of 100 points: the length bonus is its quotient by the length
/// of the name, under the root.
pub const LENGTH_RADICAND: u64 = 10_000_000_000_000_000;

/// Names up to this length get a strictly greater length bonus than every
/// longer one. Beyond it two lengths may round to the same bonus.
pub const STRICT_LENGTH_LIMIT: usize = 135_720;

/// A name with the extension of an application: 500 points.
pub const APPLICATION_POINTS: i128 = 500_000_000;

/// A name with the extension of a source or system file: 50 points off.
pub const SOURCE_PENALTY: i128 = 50_000_000;

/// The first index at or after `from` where `name` holds `c`, or the length
/// of `name` when there is none.
pub open spec fn next_occurrence(name: Seq<char>, c: char, from: int) -> int
    decreases name.len() - from,
{
    if from >= name.len() {
        name.len() as int
    } else if name[from] == c {
        from
    } else {
        next_occurrence(name, c, from + 1)
    }
}

/// The leftmost embedding of `part` into `name` that starts at or after
/// `from`: the index in `name` of each character of `part`, or `None` when
/// some character cannot be found before the end of `name`.
pub open spec fn embed(name: Seq<char>, part: Seq<char>, from: int) -> Option<Seq<int>>
    decreases part.len(),
{
    if part.len() == 0 {
        Some(Seq::empty())
    } else {
        let p = next_occurrence(name, part[0], from);
        if p >= name.len() {
            None
        } else {
            match embed(name, part.drop_first(), p + 1) {
                Some(rest) => Some(seq![p] + rest),
                None => None,
            }
        }
    }
}

/// `found` followed by the rest of an embedding, when there is a rest.
pub open spec fn continued(found: Seq<int>, rest: Option<Seq<int>>) -> Option<Seq<int>> {
    match rest {
        Some(r) => Some(found + r),
        None => None,
    }
}

/// A hit at `p` is at a word boundary when it is the first character of the
/// name or follows a character that is neither a letter nor a digit.
pub open spec fn at_boundary(alnum: Seq<bool>, p: int) -> bool {
    p == 0 || !known_flag(alnum, p - 1)
}

/// How many of the hits `ps` are at a word boundary.
pub open spec fn boundary_count(alnum: Seq<bool>, ps: Seq<int>) -> nat
    decreases ps.len(),
{
    if ps.len() == 0 {
        0
    } else {
        boundary_count(alnum, ps.drop_last()) + if at_boundary(alnum, ps.last()) {
            1nat
        } else {
            0nat
        }
    }
}

/// How many hits at the end of `ps` directly follow the hit before them.
pub open spec fn trailing_run(ps: Seq<int>) -> nat
    decreases ps.len(),
{
    if ps.len() <= 1 {
        0
    } else if ps.last() == ps[ps.len() - 2] + 1 {
        trailing_run(ps.drop_last()) + 1
    } else {
        0
    }
}

/// The longest run of adjacent hits in `ps`, counted as `trailing_run` counts.
pub open spec fn longest_run(ps: Seq<int>) -> nat
    decreases ps.len(),
{
    if ps.len() == 0 {
        0
    } else {
        let before = longest_run(ps.drop_last());
        let here = trailing_run(ps);
        if here > before {
            here
        } else {
            before
        }
    }
}

/// What one scan of a part leaves behind.
pub struct PartHits {
    /// Index of the first hit.
    pub start: usize,
    /// Index just past the last hit: where the next part starts to look.
    pub end: usize,
    /// Hits at a word boundary.
    pub boundaries: usize,
    /// Longest run of adjacent hits.
    pub longest_run: usize,
}

impl PartHits {
    /// The record agrees with the hits `ps`.
    pub open spec fn describes(self, alnum: Seq<bool>, ps: Seq<int>) -> bool {
        &&& ps.len() > 0
        &&& self.start == ps[0]
        &&& self.end == ps.last() + 1
        &&& self.boundaries == boundary_count(alnum, ps)
        &&& self.longest_run == longest_run(ps)
    }
}

/// The hits of an embedding lie between `from` and the end of the name, one
/// for each character of the part.
pub proof fn lemma_embed_range(name: Seq<char>, part: Seq<char>, from: int)
    requires
        0 <= from,
    ensures
        embed(name, part, from) matches Some(ps) ==> {
            &&& ps.len() == part.len()
            &&& forall|k: int| 0 <= k < ps.len() ==> from <= #[trigger] ps[k] < name.len()
            &&& forall|k: int| 0 <= k < ps.len() ==> name[#[trigger] ps[k]] == part[k]
            &&& forall|j: int, k: int| 0 <= j < k < ps.len() ==> ps[j] < ps[k]
        },
    decreases part.len(),
{
    if part.len() > 0 {
        let p = next_occurrence(name, part[0], from);
        lemma_next_occurrence(name, part[0], from);
        if p < name.len() {
            lemma_embed_range(name, part.drop_first(), p + 1);
            if let Some(rest) = embed(name, part.drop_first(), p + 1) {
                let ps = seq![p] + rest;
                assert forall|k: int| 0 <= k < ps.len() implies from <= #[trigger] ps[k]
                    < name.len() && name[ps[k]] == part[k] by {
                    if k > 0 {
                        assert(ps[k] == rest[k - 1]);
                        assert(part[k] == part.drop_first()[k - 1]);
                    }
                }
                assert forall|j: int, k: int| 0 <= j < k < ps.len() implies ps[j] < ps[k] by {
                    assert(ps[k] == rest[k - 1]);
                    if j > 0 {
                        assert(ps[j] == rest[j - 1]);
                    }
                }
            }
        }
    }
}

/// `next_occurrence` finds `c`, and nothing before the place it gives is `c`.
pub proof fn lemma_next_occurrence(name: Seq<char>, c: char, from: int)
    requires
        0 <= from,
    ensures
        from <= next_occurrence(name, c, from) || next_occurrence(name, c, from) == name.len(),
        next_occurrence(name, c, from) <= name.len() || next_occurrence(name, c, from) == from,
        next_occurrence(name, c, from) < name.len() ==> name[next_occurrence(name, c, from)] == c,
        forall|i: int| from <= i < next_occurrence(name, c, from) ==> name[i] != c,
    decreases name.len() - from,
{
    if from < name.len() && name[from] != c {
        lemma_next_occurrence(name, c, from + 1);
    }
}

/// Scans `name` from `from` for the characters of `part`, in order.
/// `alnum` says of each character of the name whether it is a letter or a
/// digit; a character beyond its end counts as neither.
pub(crate) fn scan_part(
    name: &Vec<char>,
    alnum: &Vec<bool>,
    part: &Vec<char>,
    from: usize,
) -> (r: Option<PartHits>)
    requires
        from <= name.len(),
        part.len() > 0,
    ensures
        match embed(name@, part@, from as int) {
            Some(ps) => r matches Some(hits) && hits.describes(alnum@, ps),
            None => r is None,
        },
        r matches Some(hits) ==> {
            &&& from <= hits.start < hits.end <= name.len()
            &&& hits.boundaries <= hits.end - from
            &&& hits.longest_run <= hits.end - from
        },
{
    let mut pos: usize = from;
    let mut idx: usize = 0;
    let mut start: usize = 0;
    let mut last: usize = 0;
    let mut boundaries: usize = 0;
    let mut run: usize = 0;
    let mut best: usize = 0;
    let ghost mut found: Seq<int> = Seq::empty();
    proof {
        assert(part@.skip(0) =~= part@);
        assert(found + embed(name@, part@, from as int).unwrap() =~= embed(
            name@,
            part@,
            from as int,
        ).unwrap());
    }
    while pos < name.len() && idx < part.len()
        invariant
            from <= pos <= name.len(),
            idx <= part.len(),
            part.len() > 0,
            found.len() == idx,
            forall|k: int| 0 <= k < found.len() ==> from <= #[trigger] found[k] < pos,
            idx > 0 ==> found[0] == start && found.last() == last,
            idx == part.len() ==> pos == last + 1,
            boundaries == boundary_count(alnum@, found),
            run == trailing_run(found),
            best == longest_run(found),
            boundaries <= idx,
            run <= idx,
            best <= idx,
            idx <= pos - from,
            embed(name@, part@, from as int) == continued(
                found,
                embed(name@, part@.skip(idx as int), pos as int),
            ),
        decreases name.len() - pos,
    {
        let ghost tail = part@.skip(idx as int);
        proof {
            assert(tail.len() > 0);
            assert(tail[0] == part@[idx as int]);
            assert(tail.drop_first() =~= part@.skip(idx + 1));
        }
        if name[pos] == part[idx] {
            let boundary = pos == 0 || !(pos - 1 < alnum.len() && alnum[pos - 1]);
            let adjacent = idx > 0 && last + 1 == pos;
            proof {
                let grown = found.push(pos as int);
                assert(grown.drop_last() =~= found);
                assert(grown.last() == pos);
                if idx > 0 {
                    assert(grown[grown.len() - 2] == found.last());
                }
                assert(next_occurrence(name@, tail[0], pos as int) == pos);
                let rest = embed(name@, part@.skip(idx + 1), pos + 1);
                if let Some(r) = rest {
                    assert(found + (seq![pos as int] + r) =~= grown + r);
                }
                found = grown;
            }
            if idx == 0 {
                start = pos;
            }
            if boundary {
                boundaries = boundaries + 1;
            }
            if adjacent {
                run = run + 1;
            } else {
                run = 0;
            }
            if run > best {
                best = run;
            }
            last = pos;
            idx = idx + 1;
        } else {
            proof {
                assert(next_occurrence(name@, tail[0], pos as int) == next_occurrence(
                    name@,
                    tail[0],
                    pos + 1,
                ));
            }
        }
        pos = pos + 1;
    }
    if idx < part.len() {
        proof {
            let tail = part@.skip(idx as int);
            assert(tail.len() > 0);
            assert(next_occurrence(name@, tail[0], pos as int) == name@.len());
        }
        None
    } else {
        proof {
            assert(part@.skip(idx as int).len() == 0);
            assert(found + Seq::<int>::empty() =~= found);
        }
        Some(PartHits { start, end: pos, boundaries, longest_run: best })
    }
}

/// The bonus of a whole query: only a query of a single part can earn it.
pub open spec fn whole_query_bonus(parts: Seq<Seq<char>>, name: Seq<char>) -> int {
    if parts.len() != 1 {
        0
    } else if occurs_at(name, parts[0], 0) {
        PREFIX_POINTS as int
    } else if is_substring(name, parts[0]) {
        SUBSTRING_POINTS as int
    } else {
        0
    }
}

/// The earliness bonus of a part whose first hit is at `start` in a name of
/// `len` characters: `EARLY_POINTS * (len - start) / len`, rounded down.
pub open spec fn earliness(len: int, start: int) -> int {
    (EARLY_POINTS * (len - start)) / len
}

/// What one part earns with the hits `ps`.
pub open spec fn part_points(name: Seq<char>, alnum: Seq<bool>, ps: Seq<int>) -> int {
    BOUNDARY_POINTS * boundary_count(alnum, ps) + RUN_POINTS * longest_run(ps) + earliness(
        name.len() as int,
        ps[0],
    )
}

/// What the parts earn together when matched one after the other, each from
/// where the one before it stopped; `None` when one of them does not embed.
/// An empty part matches without moving the cursor and earns nothing.
pub open spec fn parts_points(
    name: Seq<char>,
    alnum: Seq<bool>,
    parts: Seq<Seq<char>>,
    from: int,
) -> Option<int>
    decreases parts.len(),
{
    if parts.len() == 0 {
        Some(0)
    } else if parts[0].len() == 0 {
        parts_points(name, alnum, parts.drop_first(), from)
    } else {
        match embed(name, parts[0], from) {
            None => None,
            Some(ps) => match parts_points(name, alnum, parts.drop_first(), ps.last() + 1) {
                None => None,
                Some(rest) => Some(part_points(name, alnum, ps) + rest),
            },
        }
    }
}

/// The length bonus of a name of `len` characters: 100 points divided by the
/// square root of `len`, rounded down. An empty name earns none.
pub open spec fn length_bonus(len: nat) -> int {
    if len == 0 {
        0
    } else {
        floor_sqrt((LENGTH_RADICAND as int / len as int) as nat) as int
    }
}

/// What a lower-case extension adds or takes; a name without extension
/// neither gains nor loses.
pub open spec fn category_points(lower_ext: Option<Seq<char>>) -> int {
    match lower_ext {
        Some(e) => {
            if application_class(e) {
                APPLICATION_POINTS as int
            } else if source_class(e) {
                -SOURCE_PENALTY
            } else {
                0
            }
        },
        None => 0,
    }
}

/// The lower-case form of the extension of a name, if it has one.
pub open spec fn lowered_extension(name: Seq<char>) -> Option<Seq<char>> {
    match extension_of(name) {
        Some(ext) => Some(lowercase_of(ext)),
        None => None,
    }
}

/// What the extension of a name adds or takes.
pub open spec fn category_adjustment(name: Seq<char>) -> int {
    category_points(lowered_extension(name))
}

/// The launcher score of `name` for the query `parts`, in millionths of a
/// point, given which characters of the name are letters or digits and
/// the lower-case form of its extension; `None` when the query is empty or
/// does not match.
pub open spec fn launcher_score_with(
    parts: Seq<Seq<char>>,
    name: Seq<char>,
    alnum: Seq<bool>,
    lower_ext: Option<Seq<char>>,
) -> Option<int> {
    if parts.len() == 0 {
        None
    } else {
        match parts_points(name, alnum, parts, 0) {
            None => None,
            Some(points) => Some(
                whole_query_bonus(parts, name) + points + length_bonus(name.len())
                    + category_points(lower_ext),
            ),
        }
    }
}

/// The launcher score of `name` for the query `parts`, in millionths of a
/// point, with the classes and the lower-case forms of the standard
/// library; `None` when the query is empty or does not match.
pub open spec fn launcher_score(parts: Seq<Seq<char>>, name: Seq<char>) -> Option<int> {
    launcher_score_with(parts, name, alnum_flags(name), lowered_extension(name))
}

/// `points` more on top of what follows, when something follows.
pub open spec fn plus(points: int, rest: Option<int>) -> Option<int> {
    match rest {
        Some(r) => Some(points + r),
        None => None,
    }
}

/// An executable score as a mathematical integer.
pub open spec fn as_points(score: Option<i128>) -> Option<int> {
    match score {
        Some(s) => Some(s as int),
        None => None,
    }
}

/// The length bonus of a name of `len` characters.
pub fn length_bonus_of(len: usize) -> (r: u64)
    ensures
        r == length_bonus(len as nat),
        r <= 100 * POINT,
{
    if len == 0 {
        0
    } else {
        let r = isqrt(LENGTH_RADICAND / (len as u64));
        proof {
            let q = (LENGTH_RADICAND as int / len as int) as nat;
            lemma_div_is_ordered_by_denominator(LENGTH_RADICAND as int, 1, len as int);
            lemma_floor_sqrt_ordered(q, LENGTH_RADICAND as nat);
            assert(100_000_000nat * 100_000_000nat == 10_000_000_000_000_000nat
                && 10_000_000_000_000_000nat < (100_000_000nat + 1) * (100_000_000nat + 1))
                by (nonlinear_arith);
            crate::roots::lemma_floor_sqrt_unique(LENGTH_RADICAND as nat, 100_000_000);
        }
        r
    }
}

/// The view of a lower-case extension that may be missing.
pub open spec fn extension_view(lower_ext: Option<Vec<char>>) -> Option<Seq<char>> {
    match lower_ext {
        Some(e) => Some(e@),
        None => None,
    }
}

/// What a lower-case extension adds or takes.
pub fn category_points_of(lower_ext: &Option<Vec<char>>) -> (r: i128)
    ensures
        r == category_points(extension_view(*lower_ext)),
        -SOURCE_PENALTY <= r <= APPLICATION_POINTS,
{
    match lower_ext {
        Some(e) => {
            if in_application_class(e) {
                APPLICATION_POINTS
            } else if in_source_class(e) {
                -SOURCE_PENALTY
            } else {
                0
            }
        },
        None => 0,
    }
}

/// The lower-case form of the extension of `name`, if it has one.
pub fn lowered_extension_of(name: &Vec<char>) -> (r: Option<Vec<char>>)
    ensures
        extension_view(r) == lowered_extension(name@),
{
    match extension_chars(name) {
        Some(ext) => Some(lowercase_chars(&ext)),
        None => None,
    }
}

/// The launcher score of `name` for the query `parts`, both held as characters.
pub fn score_chars(parts: &Vec<Vec<char>>, name: &Vec<char>) -> (r: Option<i128>)
    ensures
        as_points(r) == launcher_score(part_views(parts@), name@),
{
    score_with_classes(parts, name, &alnum_flags_of(name), &lowered_extension_of(name))
}

/// The launcher score of `name` for the query `parts`, given what the
/// standard library says of the name: `alnum` says of each character
/// whether it is a letter or a digit, a character beyond its end counting
/// as neither, and `lower_ext` is the lower-case form of the extension.
pub fn score_with_classes(
    parts: &Vec<Vec<char>>,
    name: &Vec<char>,
    alnum: &Vec<bool>,
    lower_ext: &Option<Vec<char>>,
) -> (r: Option<i128>)
    ensures
        as_points(r) == launcher_score_with(
            part_views(parts@),
            name@,
            alnum@,
            extension_view(*lower_ext),
        ),
{
    if parts.len() == 0 {
        return None;
    }
    let ghost pv = part_views(parts@);
    let mut total: i128 = 0;
    if parts.len() == 1 {
        assert(pv[0] == parts@[0]@);
        if starts_with(name, &parts[0]) {
            total = PREFIX_POINTS;
        } else if contains(name, &parts[0]) {
            total = SUBSTRING_POINTS;
        }
    }
    let mut k: usize = 0;
    let mut cursor: usize = 0;
    let mut earned: i128 = 0;
    proof {
        assert(pv.skip(0) =~= pv);
    }
    while k < parts.len()
        invariant
            k <= parts.len(),
            cursor <= name.len(),
            pv == part_views(parts@),
            0 <= earned <= 22_000_000 * cursor,
            parts_points(name@, alnum@, pv, 0) == plus(
                earned as int,
                parts_points(name@, alnum@, pv.skip(k as int), cursor as int),
            ),
        decreases parts.len() - k,
    {
        let part = &parts[k];
        proof {
            assert(pv.skip(k as int)[0] == part@);
            assert(pv.skip(k as int).drop_first() =~= pv.skip(k + 1));
        }
        if part.len() > 0 {
            match scan_part(name, alnum, part, cursor) {
                None => {
                    return None;
                },
                Some(hits) => {
                    proof {
                        lemma_embed_range(name@, part@, cursor as int);
                    }
                    let len: i128 = name.len() as i128;
                    proof {
                        let ghost l = len as int;
                        let ghost st = hits.start as int;
                        assert(0 <= (10_000_000 * (l - st)) / l <= 10_000_000)
                            by (nonlinear_arith)
                            requires
                                0 <= st < l,
                        ;
                    }
                    let early: i128 = (EARLY_POINTS * (len - hits.start as i128)) / len;
                    let points: i128 = BOUNDARY_POINTS * (hits.boundaries as i128) + RUN_POINTS * (
                    hits.longest_run as i128) + early;
                    assert(0 <= points <= 22_000_000 * (hits.end - cursor));
                    earned = earned + points;
                    cursor = hits.end;
                },
            }
        }
        k = k + 1;
    }
    let bonus = length_bonus_of(name.len());
    let adjustment = category_points_of(lower_ext);
    Some(total + earned + bonus as i128 + adjustment)
}

/// Scores the name `file_name` for the query parts `query_parts`.
///
/// The parts are matched in the order given, each from where the one before
/// it stopped in the name. The result is in millionths of a point.
pub fn calculate_launcher_score(query_parts: &[&str], file_name: &str) -> (r: Option<i128>)
    ensures
        as_points(r) == launcher_score(str_views(query_parts@), file_name@),
{
    let name = chars_of(file_name);
    let mut parts: Vec<Vec<char>> = Vec::new();
    let mut i: usize = 0;
    while i < query_parts.len()
        invariant
            i <= query_parts.len(),
            parts.len() == i,
            forall|k: int| 0 <= k < i ==> parts@[k]@ == query_parts@[k]@,
        decreases query_parts.len() - i,
    {
        parts.push(chars_of(query_parts[i]));
        i = i + 1;
    }
    assert(part_views(parts@) =~= str_views(query_parts@));
    score_chars(&parts, &name)
}

/// `(a * d) <= c` with a positive `d` gives `a <= c / d`.
proof fn lemma_quotient_at_least(a: int, c: int, d: int)
    requires
        0 < d,
        a * d <= c,
    ensures
        a <= c / d,
{
    lemma_mul_is_commutative(a, d);
    lemma_div_multiples_vanish(a, d);
    lemma_div_is_ordered(d * a, c, d);
}

/// A positive `d` times the quotient of `c` by `d` is at most `c`.
proof fn lemma_quotient_times_divisor(c: int, d: int)
    requires
        0 < d,
        0 <= c,
    ensures
        (c / d) * d <= c,
        0 <= c / d,
{
    lemma_fundamental_div_mod(c, d);
    lemma_mul_is_commutative(c / d, d);
    vstd::arithmetic::div_mod::lemma_mod_bound(c, d);
    vstd::arithmetic::div_mod::lemma_div_pos_is_pos(c, d);
}

/// The length bonus never grows with the length of the name.
pub proof fn lemma_length_bonus_ordered(shorter: nat, longer: nat)
    requires
        0 < shorter <= longer,
    ensures
        length_bonus(shorter) >= length_bonus(longer),
{
    let c = LENGTH_RADICAND as int;
    lemma_div_is_ordered_by_denominator(c, shorter as int, longer as int);
    lemma_quotient_times_divisor(c, shorter as int);
    lemma_quotient_times_divisor(c, longer as int);
    lemma_floor_sqrt_ordered((c / longer as int) as nat, (c / shorter as int) as nat);
}

/// A name one character longer earns a strictly smaller length bonus, as
/// long as `(n + 1) * (2n + 1)^2` stays within the radicand.
proof fn lemma_length_bonus_step(n: nat)
    requires
        1 <= n,
        (n + 1) * ((2 * n + 1) * (2 * n + 1)) <= LENGTH_RADICAND,
    ensures
        length_bonus(n) > length_bonus(n + 1),
{
    let c = LENGTH_RADICAND as int;
    let m = n as int;
    let y = c / (m + 1);
    let x = c / m;
    lemma_quotient_times_divisor(c, m + 1);
    lemma_quotient_times_divisor(c, m);
    let r = floor_sqrt(y as nat) as int;
    let w = 2 * m + 1;
    assert((w * w) * (m + 1) <= c) by (nonlinear_arith)
        requires
            (m + 1) * (w * w) <= c,
    ;
    lemma_quotient_at_least(w * w, c, m + 1);
    lemma_floor_sqrt_at_least(y as nat, w as nat);
    lemma_floor_sqrt_bounds(y as nat);
    assert(r * r <= y);
    assert((r * r) * (m + 1) <= c) by (nonlinear_arith)
        requires
            r * r <= y,
            y * (m + 1) <= c,
            0 <= m,
    ;
    assert(((r + 1) * (r + 1)) * m <= (r * r) * (m + 1)) by (nonlinear_arith)
        requires
            r >= 2 * m + 1,
            m >= 1,
    ;
    lemma_quotient_at_least((r + 1) * (r + 1), c, m);
    lemma_floor_sqrt_at_least(x as nat, (r + 1) as nat);
}

/// Of two names of different length, neither longer than
/// `STRICT_LENGTH_LIMIT`, the shorter earns the strictly greater length bonus.
pub proof fn lemma_shorter_name_earns_more(shorter: nat, longer: nat)
    requires
        0 < shorter < longer <= STRICT_LENGTH_LIMIT,
    ensures
        length_bonus(shorter) > length_bonus(longer),
{
    let n = shorter as int;
    assert((n + 1) * ((2 * n + 1) * (2 * n + 1)) <= 10_000_000_000_000_000) by (nonlinear_arith)
        requires
            0 < n < 135_720,
    ;
    lemma_length_bonus_step(shorter);
    lemma_length_bonus_ordered(shorter + 1, longer);
}

/// The parts of a query never earn a negative number of points.
pub proof fn lemma_parts_points_not_negative(
    name: Seq<char>,
    alnum: Seq<bool>,
    parts: Seq<Seq<char>>,
    from: int,
)
    requires
        0 <= from,
    ensures
        parts_points(name, alnum, parts, from) matches Some(points) ==> points >= 0,
    decreases parts.len(),
{
    if parts.len() > 0 {
        if parts[0].len() == 0 {
            lemma_parts_points_not_negative(name, alnum, parts.drop_first(), from);
        } else {
            lemma_embed_range(name, parts[0], from);
            if let Some(ps) = embed(name, parts[0], from) {
                lemma_parts_points_not_negative(name, alnum, parts.drop_first(), ps.last() + 1);
                let l = name.len() as int;
                let st = ps[0];
                assert(0 <= (10_000_000 * (l - st)) / l) by (nonlinear_arith)
                    requires
                        0 <= st < l,
                ;
                assert(BOUNDARY_POINTS * boundary_count(alnum, ps) >= 0) by (nonlinear_arith)
                    requires
                        BOUNDARY_POINTS >= 0,
                ;
                assert(RUN_POINTS * longest_run(ps) >= 0) by (nonlinear_arith)
                    requires
                        RUN_POINTS >= 0,
                ;
            }
        }
    }
}

/// A score is never below what the extension of the name adds or takes:
/// it is negative only for a name with the extension of a source or system
/// file, and then by less than the penalty.
pub proof fn lemma_score_floor(parts: Seq<Seq<char>>, name: Seq<char>)
    ensures
        launcher_score(parts, name) matches Some(score) ==> {
            &&& score >= category_adjustment(name)
            &&& score >= -SOURCE_PENALTY
            &&& category_adjustment(name) >= 0 ==> score >= 0
        },
{
    lemma_parts_points_not_negative(name, alnum_flags(name), parts, 0);
}

/// A part that does not embed from `from` does not embed from further on.
pub proof fn lemma_embed_fails_later(name: Seq<char>, part: Seq<char>, from: int, later: int)
    requires
        0 <= from <= later,
        embed(name, part, from) is None,
    ensures
        embed(name, part, later) is None,
    decreases part.len(),
{
    if part.len() > 0 {
        let p = next_occurrence(name, part[0], from);
        let q = next_occurrence(name, part[0], later);
        lemma_next_occurrence(name, part[0], from);
        lemma_next_occurrence(name, part[0], later);
        if q < name.len() {
            assert(p <= q);
            lemma_embed_fails_later(name, part.drop_first(), p + 1, q + 1);
        }
    }
}

/// A query with a part that does not embed into the name at all does not
/// match, wherever the cursor stands.
pub proof fn lemma_unmatched_part_rejects(
    name: Seq<char>,
    alnum: Seq<bool>,
    parts: Seq<Seq<char>>,
    from: int,
    i: int,
)
    requires
        0 <= from,
        0 <= i < parts.len(),
        embed(name, parts[i], 0) is None,
    ensures
        parts_points(name, alnum, parts, from) is None,
    decreases parts.len(),
{
    if i == 0 {
        lemma_embed_fails_later(name, parts[0], 0, from);
    } else {
        assert(parts.drop_first()[i - 1] == parts[i]);
        if parts[0].len() == 0 {
            lemma_unmatched_part_rejects(name, alnum, parts.drop_first(), from, i - 1);
        } else {
            lemma_embed_range(name, parts[0], from);
            if let Some(ps) = embed(name, parts[0], from) {
                lemma_unmatched_part_rejects(name, alnum, parts.drop_first(), ps.last() + 1, i - 1);
            }
        }
    }
}

/// When one part of a query does not embed into the name on its own, the
/// query does not match, and neither does any reordering of its parts.
pub proof fn lemma_unmatched_part_rejects_every_order(
    parts: Seq<Seq<char>>,
    reordered: Seq<Seq<char>>,
    name: Seq<char>,
)
    requires
        parts.to_multiset() == reordered.to_multiset(),
        exists|i: int| 0 <= i < parts.len() && embed(name, #[trigger] parts[i], 0) is None,
    ensures
        launcher_score(parts, name) is None,
        launcher_score(reordered, name) is None,
{
    let i = choose|i: int| 0 <= i < parts.len() && embed(name, #[trigger] parts[i], 0) is None;
    lemma_unmatched_part_rejects(name, alnum_flags(name), parts, 0, i);
    vstd::seq_lib::to_multiset_contains(parts, parts[i]);
    vstd::seq_lib::to_multiset_contains(reordered, parts[i]);
    assert(parts.contains(parts[i]));
    assert(reordered.contains(parts[i]));
    let j = choose|j: int| 0 <= j < reordered.len() && reordered[j] == parts[i];
    lemma_unmatched_part_rejects(name, alnum_flags(name), reordered, 0, j);
}

/// Where the cursor stands after the hits `ps` of a part that was looked for
/// from `from`.
pub open spec fn cursor_after(ps: Seq<int>, from: int) -> int {
    if ps.len() == 0 {
        from
    } else {
        ps.last() + 1
    }
}

/// Two parts embed one after the other exactly when their concatenation embeds.
pub proof fn lemma_embed_concat(name: Seq<char>, a: Seq<char>, b: Seq<char>, from: int)
    requires
        0 <= from,
    ensures
        embed(name, a + b, from) is Some <==> (embed(name, a, from) matches Some(pa) && embed(
            name,
            b,
            cursor_after(pa, from),
        ) is Some),
    decreases a.len(),
{
    if a.len() == 0 {
        assert(a + b =~= b);
    } else {
        let p = next_occurrence(name, a[0], from);
        lemma_next_occurrence(name, a[0], from);
        assert((a + b)[0] == a[0]);
        assert((a + b).drop_first() =~= a.drop_first() + b);
        if p < name.len() {
            lemma_embed_concat(name, a.drop_first(), b, p + 1);
            if let Some(rest) = embed(name, a.drop_first(), p + 1) {
                let pa = seq![p] + rest;
                if rest.len() > 0 {
                    assert(pa.last() == rest.last());
                } else {
                    assert(pa.last() == p);
                }
            }
        }
    }
}

/// The parts of a query match exactly when their concatenation, in the
/// order given, embeds into the name.
pub proof fn lemma_parts_match_as_joined(
    name: Seq<char>,
    alnum: Seq<bool>,
    parts: Seq<Seq<char>>,
    from: int,
)
    requires
        0 <= from,
    ensures
        parts_points(name, alnum, parts, from) is Some <==> embed(name, parts.flatten(), from) is Some,
    decreases parts.len(),
{
    if parts.len() > 0 {
        lemma_embed_concat(name, parts[0], parts.drop_first().flatten(), from);
        lemma_embed_range(name, parts[0], from);
        if parts[0].len() == 0 {
            lemma_parts_match_as_joined(name, alnum, parts.drop_first(), from);
        } else if let Some(ps) = embed(name, parts[0], from) {
            lemma_parts_match_as_joined(name, alnum, parts.drop_first(), ps.last() + 1);
        }
    }
}

/// Whether a query matches a name does not rest on how the characters of
/// the name are classed, nor on its extension: it matches exactly when it
/// has a part and its parts, joined in the order given, embed into the
/// name from its start.
pub proof fn lemma_match_whatever_the_classes(
    parts: Seq<Seq<char>>,
    name: Seq<char>,
    alnum: Seq<bool>,
    lower_ext: Option<Seq<char>>,
)
    ensures
        launcher_score_with(parts, name, alnum, lower_ext) is Some <==> parts.len() > 0 && embed(
            name,
            parts.flatten(),
            0,
        ) is Some,
{
    lemma_parts_match_as_joined(name, alnum, parts, 0);
}

/// A query matches a name exactly when it has a part and its parts, joined
/// in the order given, embed into the name from its start.
pub proof fn lemma_match_follows_part_order(parts: Seq<Seq<char>>, name: Seq<char>)
    ensures
        launcher_score(parts, name) is Some <==> parts.len() > 0 && embed(
            name,
            parts.flatten(),
            0,
        ) is Some,
{
    lemma_parts_match_as_joined(name, alnum_flags(name), parts, 0);
}

} // verus!
