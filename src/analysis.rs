//! Integer parts of the card and joker analysis: card ranks, the kind of
//! synergy between two jokers, and the ante a joker path is expected to reach.
use vstd::prelude::*;
use vstd::string::*;

use crate::text::{chars_of, same_text};

verus! {

/// A playing card.
#[derive(Debug, Clone)]
pub struct Card {
    pub suit: String,
    pub rank: String,
    pub enhancement: Option<String>,
    pub base_chips: i32,
}

/// What synergy scoring reads of a joker.
#[derive(Debug, Clone)]
pub struct JokerAttributes {
    pub name: String,
    pub rarity: String,
    pub cost: i32,
    pub base_chips: i32,
    pub base_mult: i32,
    pub scaling_type: String,
}

/// A joker on a progression path.
#[derive(Debug, Clone)]
pub struct PathJoker {
    pub name: String,
    pub cost: i32,
    pub rarity: String,
    pub ante_requirement: i32,
}

pub open spec fn is_digit(c: char) -> bool {
    '0' <= c && c <= '9'
}

pub open spec fn digit_value(c: char) -> int {
    c as int - '0' as int
}

/// The number a string of decimal digits denotes.
pub open spec fn digits_value(s: Seq<char>) -> int
    decreases s.len(),
{
    if s.len() == 0 {
        0
    } else {
        digits_value(s.drop_last()) * 10 + digit_value(s.last())
    }
}

pub open spec fn all_digits(s: Seq<char>) -> bool {
    forall|i: int| 0 <= i < s.len() ==> is_digit(#[trigger] s[i])
}

/// The integer a text denotes: an optional sign, then one or more decimal digits.
pub open spec fn int_of_text(s: Seq<char>) -> Option<int> {
    if s.len() > 0 && (s[0] == '+' || s[0] == '-') {
        let body = s.drop_first();
        if body.len() > 0 && all_digits(body) {
            Some(if s[0] == '-' { -digits_value(body) } else { digits_value(body) })
        } else {
            None
        }
    } else if s.len() > 0 && all_digits(s) {
        Some(digits_value(s))
    } else {
        None
    }
}

/// The `i32` a text denotes, as `str::parse::<i32>` reads it.
pub open spec fn i32_of_text(s: Seq<char>) -> Option<i32> {
    match int_of_text(s) {
        Some(v) => if i32::MIN <= v <= i32::MAX {
            Some(v as i32)
        } else {
            None
        },
        None => None,
    }
}

proof fn lemma_digits_grow(s: Seq<char>, k: int)
    requires
        all_digits(s),
        0 <= k <= s.len(),
    ensures
        0 <= digits_value(s.take(k)) <= digits_value(s),
    decreases s.len(),
{
    if k < s.len() {
        let d = s.drop_last();
        assert(s.take(k) =~= d.take(k));
        assert(all_digits(d)) by {
            assert forall|i: int| 0 <= i < d.len() implies is_digit(#[trigger] d[i]) by {
                assert(d[i] == s[i]);
            }
        }
        lemma_digits_grow(d, k);
        assert(is_digit(s[s.len() - 1]));
    } else {
        assert(s.take(k) =~= s);
        lemma_digits_nonneg(s);
    }
}

proof fn lemma_digits_nonneg(s: Seq<char>)
    requires
        all_digits(s),
    ensures
        digits_value(s) >= 0,
    decreases s.len(),
{
    if s.len() > 0 {
        let d = s.drop_last();
        assert(all_digits(d)) by {
            assert forall|i: int| 0 <= i < d.len() implies is_digit(#[trigger] d[i]) by {
                assert(d[i] == s[i]);
            }
        }
        lemma_digits_nonneg(d);
        assert(is_digit(s[s.len() - 1]));
    }
}

/// Reads a decimal `i32`: an optional sign, then one or more digits.
pub fn parse_i32(s: &str) -> (r: Option<i32>)
    ensures
        r == i32_of_text(s@),
{
    let cs = chars_of(s);
    let n = cs.len();
    if n == 0 {
        return None;
    }
    let signed = cs[0] == '+' || cs[0] == '-';
    let negative = cs[0] == '-';
    let start: usize = if signed {
        1
    } else {
        0
    };
    if start == n {
        return None;
    }
    let ghost body = s@.skip(start as int);
    assert(signed ==> body =~= s@.drop_first());
    assert(!signed ==> body =~= s@);
    let mut acc: i64 = 0;
    let mut k: usize = start;
    while k < n
        invariant
            cs@ == s@,
            n == s@.len(),
            start <= k <= n,
            start < n,
            body == s@.skip(start as int),
            signed == (s@[0] == '+' || s@[0] == '-'),
            negative == (s@[0] == '-'),
            start == if signed { 1usize } else { 0usize },
            signed ==> body == s@.drop_first(),
            !signed ==> body == s@,
            all_digits(body.take(k - start)),
            acc as int == digits_value(body.take(k - start)),
            0 <= acc <= 0x8000_0000,
        decreases n - k,
    {
        let c = cs[k];
        let ghost t = body.take(k - start + 1);
        assert(t.drop_last() =~= body.take(k - start));
        assert(t.last() == c);
        if !('0' <= c && c <= '9') {
            proof {
                assert(!is_digit(body[k - start]));
                assert(!all_digits(body));
            }
            return None;
        }
        let v = (c as u32 - '0' as u32) as i64;
        let next = acc * 10 + v;
        if next > 0x8000_0000 {
            proof {
                assert(all_digits(t)) by {
                    assert forall|i: int| 0 <= i < t.len() implies is_digit(#[trigger] t[i]) by {
                        if i < t.len() - 1 {
                            assert(t[i] == body.take(k - start)[i]);
                        }
                    }
                }
                if all_digits(body) {
                    lemma_digits_grow(body, k - start + 1);
                }
            }
            return None;
        }
        acc = next;
        k = k + 1;
        proof {
            assert(all_digits(t)) by {
                assert forall|i: int| 0 <= i < t.len() implies is_digit(#[trigger] t[i]) by {
                    if i < t.len() - 1 {
                        assert(t[i] == body.take(k - start - 1)[i]);
                    }
                }
            }
        }
    }
    assert(body.take(n - start) =~= body);
    if negative {
        Some((-acc) as i32)
    } else if acc > 0x7fff_ffff {
        None
    } else {
        Some(acc as i32)
    }
}

/// The value of a rank: A 14, K 13, Q 12, J 11, a number its value, else 0.
pub open spec fn rank_of(rank: Seq<char>) -> i32 {
    if rank == "A"@ {
        14
    } else if rank == "K"@ {
        13
    } else if rank == "Q"@ {
        12
    } else if rank == "J"@ {
        11
    } else {
        match i32_of_text(rank) {
            Some(v) => v,
            None => 0,
        }
    }
}

impl Card {
    /// The value of the card's rank.
    pub fn rank_value(&self) -> (r: i32)
        ensures
            r == rank_of(self.rank@),
    {
        let rank = self.rank.as_str();
        if same_text(rank, "A") {
            14
        } else if same_text(rank, "K") {
            13
        } else if same_text(rank, "Q") {
            12
        } else if same_text(rank, "J") {
            11
        } else {
            match parse_i32(rank) {
                Some(v) => v,
                None => 0,
            }
        }
    }
}

/// Whether two scaling types complement each other.
pub open spec fn complementary(a: Seq<char>, b: Seq<char>) -> bool {
    (a == "multiplicative"@ && b == "additive"@) || (a == "additive"@ && b == "multiplicative"@)
}

/// The synergy of two jokers in hundredths, at most 100: 30 for the same
/// scaling type; 25 for multiplicative with additive, else 15 when either is
/// conditional; 20 for the same rarity; 15 for a joint cost up to 15, else 10
/// up to 25; 20 when both add mult.
pub open spec fn synergy_score(a: JokerAttributes, b: JokerAttributes) -> int {
    let same = if a.scaling_type@ == b.scaling_type@ { 30int } else { 0int };
    let comp = if complementary(a.scaling_type@, b.scaling_type@) {
        25int
    } else if a.scaling_type@ == "conditional"@ || b.scaling_type@ == "conditional"@ {
        15int
    } else {
        0int
    };
    let rarity = if a.rarity@ == b.rarity@ { 20int } else { 0int };
    let cost = a.cost + b.cost;
    let thrift = if cost <= 15 { 15int } else if cost <= 25 { 10int } else { 0int };
    let stack = if a.base_mult > 0 && b.base_mult > 0 { 20int } else { 0int };
    let total = same + comp + rarity + thrift + stack;
    if total > 100 { 100 } else { total }
}

/// The synergy of two jokers, in hundredths.
pub fn calculate_synergy(joker1: &JokerAttributes, joker2: &JokerAttributes) -> (r: u32)
    ensures
        r == synergy_score(*joker1, *joker2),
{
    let s1 = joker1.scaling_type.as_str();
    let s2 = joker2.scaling_type.as_str();
    let mut score: u32 = 0;
    if same_text(s1, s2) {
        score = score + 30;
    }
    if (same_text(s1, "multiplicative") && same_text(s2, "additive")) || (same_text(s1, "additive")
        && same_text(s2, "multiplicative")) {
        score = score + 25;
    } else if same_text(s1, "conditional") || same_text(s2, "conditional") {
        score = score + 15;
    }
    if same_text(joker1.rarity.as_str(), joker2.rarity.as_str()) {
        score = score + 20;
    }
    let cost = joker1.cost as i64 + joker2.cost as i64;
    if cost <= 15 {
        score = score + 15;
    } else if cost <= 25 {
        score = score + 10;
    }
    if joker1.base_mult > 0 && joker2.base_mult > 0 {
        score = score + 20;
    }
    if score > 100 {
        100
    } else {
        score
    }
}

/// A pair of jokers and their synergy.
#[derive(Debug, Clone)]
pub struct SynergyResult {
    pub joker1: String,
    pub joker2: String,
    /// In hundredths.
    pub strength: u32,
    pub synergy_type: String,
}

/// The pairs `(a, b, score)` for `a < b < end` whose score reaches `min`, by `b`.
pub open spec fn pair_row(js: Seq<JokerAttributes>, min: u32, a: int, end: int) -> Seq<(int, int, int)>
    decreases end - a,
{
    if end <= a + 1 {
        Seq::empty()
    } else {
        let rest = pair_row(js, min, a, end - 1);
        let s = synergy_score(js[a], js[end - 1]);
        if s >= min {
            rest.push((a, end - 1, s))
        } else {
            rest
        }
    }
}

/// The pairs whose first joker comes before place `i`, in order of the pair.
pub open spec fn pairs_upto(js: Seq<JokerAttributes>, min: u32, i: int) -> Seq<(int, int, int)>
    decreases i,
{
    if i <= 0 {
        Seq::empty()
    } else {
        pairs_upto(js, min, i - 1) + pair_row(js, min, i - 1, js.len() as int)
    }
}

/// Where a pair of score `v` goes in a list ranked by score: after every pair
/// scoring at least as much.
pub open spec fn place(s: Seq<(int, int, int)>, v: int) -> int
    decreases s.len(),
{
    if s.len() == 0 {
        0
    } else if s[0].2 < v {
        0
    } else {
        1 + place(s.drop_first(), v)
    }
}

/// `c` ranked by score, highest first; equal scores keep their order.
pub open spec fn ranked(c: Seq<(int, int, int)>) -> Seq<(int, int, int)>
    decreases c.len(),
{
    if c.len() == 0 {
        Seq::empty()
    } else {
        let r = ranked(c.drop_last());
        r.insert(place(r, c.last().2), c.last())
    }
}

/// `r` describes the pair `p` of the jokers `js`.
pub open spec fn describes(js: Seq<JokerAttributes>, r: SynergyResult, p: (int, int, int)) -> bool {
    &&& 0 <= p.0 < js.len()
    &&& 0 <= p.1 < js.len()
    &&& r.joker1@ == js[p.0].name@
    &&& r.joker2@ == js[p.1].name@
    &&& r.strength == p.2
    &&& r.synergy_type@ == synergy_kind(js[p.0], js[p.1])
}

/// `res` lists the pairs `s` of the jokers `js`.
pub open spec fn lists_pairs(js: Seq<JokerAttributes>, res: Seq<SynergyResult>, s: Seq<(int, int, int)>) -> bool {
    &&& res.len() == s.len()
    &&& forall|k: int| 0 <= k < res.len() ==> describes(js, #[trigger] res[k], s[k])
}

proof fn lemma_place_bound(s: Seq<(int, int, int)>, v: int)
    ensures
        0 <= place(s, v) <= s.len(),
        forall|k: int| 0 <= k < place(s, v) ==> s[k].2 >= v,
        place(s, v) < s.len() ==> s[place(s, v)].2 < v,
    decreases s.len(),
{
    if s.len() > 0 && s[0].2 >= v {
        lemma_place_bound(s.drop_first(), v);
        assert forall|k: int| 0 <= k < place(s, v) implies s[k].2 >= v by {
            if k > 0 {
                assert(s[k] == s.drop_first()[k - 1]);
            }
        }
    }
}

/// Every pair of jokers with a synergy of at least `min_strength` (in
/// hundredths), strongest first; pairs of equal strength keep their order.
pub fn calculate_all_synergies(jokers: &[JokerAttributes], min_strength: u32) -> (r: Vec<SynergyResult>)
    ensures
        lists_pairs(jokers@, r@, ranked(pairs_upto(jokers@, min_strength, jokers@.len() as int))),
{
    let n = jokers.len();
    let ghost js = jokers@;
    let mut found: Vec<SynergyResult> = Vec::new();
    let ghost mut cands: Seq<(int, int, int)> = Seq::empty();
    let mut i: usize = 0;
    while i < n
        invariant
            n == js.len(),
            js == jokers@,
            i <= n,
            cands == pairs_upto(js, min_strength, i as int),
            lists_pairs(js, found@, cands),
        decreases n - i,
    {
        let mut j: usize = i + 1;
        let ghost start = cands;
        assert(pair_row(js, min_strength, i as int, j as int) =~= Seq::empty());
        assert(cands =~= start + pair_row(js, min_strength, i as int, j as int));
        while j < n
            invariant
                n == js.len(),
                js == jokers@,
                i < n,
                i + 1 <= j <= n,
                start == pairs_upto(js, min_strength, i as int),
                cands == start + pair_row(js, min_strength, i as int, j as int),
                lists_pairs(js, found@, cands),
            decreases n - j,
        {
            let score = calculate_synergy(&jokers[i], &jokers[j]);
            if score >= min_strength {
                let item = SynergyResult {
                    joker1: jokers[i].name.clone(),
                    joker2: jokers[j].name.clone(),
                    strength: score,
                    synergy_type: determine_synergy_type(&jokers[i], &jokers[j]),
                };
                let ghost before = found@;
                found.push(item);
                proof {
                    let t = (i as int, j as int, score as int);
                    assert(pair_row(js, min_strength, i as int, j + 1) == pair_row(js, min_strength, i as int, j as int).push(t));
                    let old_c = cands;
                    cands = cands.push(t);
                    assert(cands =~= start + pair_row(js, min_strength, i as int, j + 1));
                    assert forall|k: int| 0 <= k < found@.len() implies describes(js, #[trigger] found@[k], cands[k]) by {
                        if k < before.len() {
                            assert(found@[k] == before[k]);
                            assert(cands[k] == old_c[k]);
                        }
                    }
                    assert(found@.len() == cands.len());
                    assert(lists_pairs(js, found@, cands));
                }
            } else {
                assert(pair_row(js, min_strength, i as int, j + 1) == pair_row(js, min_strength, i as int, j as int));
            }
            j = j + 1;
        }
        proof {
            assert(pairs_upto(js, min_strength, i + 1) == pairs_upto(js, min_strength, i as int) + pair_row(js, min_strength, i as int, n as int));
        }
        i = i + 1;
    }
    // Rank by strength, highest first, keeping the order of equals.
    let ghost all = cands;
    let mut ranked_list: Vec<SynergyResult> = Vec::new();
    let ghost mut sorted: Seq<(int, int, int)> = Seq::empty();
    let mut rest = found;
    let m = rest.len();
    let mut k: usize = 0;
    assert(all.take(0) =~= Seq::<(int, int, int)>::empty());
    while k < m
        invariant
            m == all.len(),
            k <= m,
            rest@.len() == m - k,
            forall|q: int| 0 <= q < m - k ==> describes(js, #[trigger] rest@[q], all[k + q]),
            sorted == ranked(all.take(k as int)),
            lists_pairs(js, ranked_list@, sorted),
        decreases m - k,
    {
        let ghost rest_before = rest@;
        let item = rest.remove(0);
        let ghost t = all[k as int];
        assert(describes(js, rest_before[0], t));
        assert(item.strength == t.2);
        assert forall|q: int| 0 <= q < m - k - 1 implies describes(js, #[trigger] rest@[q], all[k + 1 + q]) by {
            assert(rest@[q] == rest_before[q + 1]);
            assert(describes(js, rest_before[q + 1], all[k + (q + 1)]));
        }
        let mut pos: usize = 0;
        proof {
            lemma_place_bound(sorted, t.2);
        }
        while pos < ranked_list.len() && ranked_list[pos].strength >= item.strength
            invariant
                pos <= ranked_list@.len(),
                lists_pairs(js, ranked_list@, sorted),
                item.strength == t.2,
                place(sorted, t.2) >= pos,
                forall|q: int| 0 <= q < pos ==> sorted[q].2 >= t.2,
                0 <= place(sorted, t.2) <= sorted.len(),
                forall|q: int| 0 <= q < place(sorted, t.2) ==> sorted[q].2 >= t.2,
                place(sorted, t.2) < sorted.len() ==> sorted[place(sorted, t.2)].2 < t.2,
            decreases ranked_list@.len() - pos,
        {
            assert(lists_pairs(js, ranked_list@, sorted));
            assert(ranked_list@[pos as int].strength == sorted[pos as int].2);
            pos = pos + 1;
        }
        proof {
            if pos < ranked_list@.len() {
                assert(ranked_list@[pos as int].strength == sorted[pos as int].2);
            }
            assert(place(sorted, t.2) == pos);
        }
        let ghost list_before = ranked_list@;
        ranked_list.insert(pos, item);
        proof {
            let old_sorted = sorted;
            sorted = sorted.insert(pos as int, t);
            let tk = all.take(k + 1);
            assert(tk.drop_last() =~= all.take(k as int));
            assert(tk.last() == t);
            assert(sorted == ranked(tk));
            assert forall|q: int| 0 <= q < ranked_list@.len() implies describes(js, #[trigger] ranked_list@[q], sorted[q]) by {
                if q < pos {
                    assert(ranked_list@[q] == list_before[q]);
                    assert(sorted[q] == old_sorted[q]);
                } else if q == pos {
                    assert(ranked_list@[q] == item);
                    assert(sorted[q] == t);
                } else {
                    assert(ranked_list@[q] == list_before[q - 1]);
                    assert(sorted[q] == old_sorted[q - 1]);
                }
            }
            assert(ranked_list@.len() == sorted.len());
            assert(lists_pairs(js, ranked_list@, sorted));
        }
        k = k + 1;
    }
    assert(all.take(m as int) =~= all);
    ranked_list
}

/// The kind of synergy between two jokers.
pub open spec fn synergy_kind(a: JokerAttributes, b: JokerAttributes) -> Seq<char> {
    if a.scaling_type@ == b.scaling_type@ {
        "amplifying"@
    } else if a.base_mult > 0 && b.base_mult > 0 {
        "multiplicative"@
    } else {
        "complementary"@
    }
}

/// Names the kind of synergy between two jokers.
pub fn determine_synergy_type(joker1: &JokerAttributes, joker2: &JokerAttributes) -> (r: String)
    ensures
        r@ == synergy_kind(*joker1, *joker2),
{
    if same_text(joker1.scaling_type.as_str(), joker2.scaling_type.as_str()) {
        String::from_str("amplifying")
    } else if joker1.base_mult > 0 && joker2.base_mult > 0 {
        String::from_str("multiplicative")
    } else {
        String::from_str("complementary")
    }
}

/// The ante bonus of a rarity: legendary 3, rare 2, uncommon 1, else 0.
pub open spec fn rarity_bonus(rarity: Seq<char>) -> int {
    if rarity == "legendary"@ {
        3
    } else if rarity == "rare"@ {
        2
    } else if rarity == "uncommon"@ {
        1
    } else {
        0
    }
}

pub open spec fn bonus_sum(path: Seq<PathJoker>) -> int
    decreases path.len(),
{
    if path.len() == 0 {
        0
    } else {
        bonus_sum(path.drop_last()) + rarity_bonus(path.last().rarity@)
    }
}

/// The ante a path is expected to reach: 4, plus one per joker, plus the
/// rarity bonuses.
pub fn calculate_expected_ante(path: &[PathJoker]) -> (r: i32)
    requires
        path@.len() <= 0x1000_0000,
    ensures
        r == 4 + path@.len() + bonus_sum(path@),
{
    let mut bonus: i32 = 0;
    let mut i: usize = 0;
    while i < path.len()
        invariant
            i <= path@.len(),
            path@.len() <= 0x1000_0000,
            bonus == bonus_sum(path@.take(i as int)),
            0 <= bonus <= 3 * i,
        decreases path@.len() - i,
    {
        let ghost t = path@.take(i + 1);
        assert(t.drop_last() =~= path@.take(i as int));
        assert(t.last() == path@[i as int]);
        let rarity = path[i].rarity.as_str();
        let b: i32 = if same_text(rarity, "legendary") {
            3
        } else if same_text(rarity, "rare") {
            2
        } else if same_text(rarity, "uncommon") {
            1
        } else {
            0
        };
        bonus = bonus + b;
        i = i + 1;
    }
    assert(path@.take(i as int) =~= path@);
    4 + path.len() as i32 + bonus
}

} // verus!
