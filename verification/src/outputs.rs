//! Where the monitors sit in the global output layout: the preferred order
//! and pinned positions (from the environment and from `monitor` config
//! nodes), checked against the connected outputs, and the left-to-right
//! placement of the rest; and which output owns a point.
use vstd::prelude::*;
use crate::geometry::{imax, rect_contains_spec, Point, Rect};
use crate::text::{
    chars_of, deep, str_eq, is_sep, parse_i32, parse_i32_spec, pieces_by, split_on, string_of, strings_view,
    trim_chars, trim_spec, IntError,
};

verus! {

/// The trimmed pieces that are not empty, in order.
pub open spec fn trimmed_nonempty(ps: Seq<Seq<char>>) -> Seq<Seq<char>>
    decreases ps.len(),
{
    if ps.len() == 0 {
        Seq::empty()
    } else {
        let r = trimmed_nonempty(ps.drop_last());
        let t = trim_spec(ps.last());
        if t.len() > 0 {
            r.push(t)
        } else {
            r
        }
    }
}

fn trimmed_pieces(pieces: &Vec<Vec<char>>) -> (r: Vec<Vec<char>>)
    ensures
        deep(r@) == trimmed_nonempty(deep(pieces@)),
{
    let ghost ps = deep(pieces@);
    let mut r: Vec<Vec<char>> = Vec::new();
    let mut i: usize = 0;
    while i < pieces.len()
        invariant
            i <= pieces@.len(),
            ps == deep(pieces@),
            deep(r@) == trimmed_nonempty(ps.take(i as int)),
        decreases pieces@.len() - i,
    {
        proof {
            assert(ps.take(i + 1).drop_last() =~= ps.take(i as int));
            assert(ps.take(i + 1).last() == pieces@[i as int]@);
        }
        let t = trim_chars(pieces[i].as_slice());
        if t.len() > 0 {
            r.push(t);
            proof {
                assert(deep(r@) =~= trimmed_nonempty(ps.take(i + 1)));
            }
        }
        i = i + 1;
    }
    proof {
        assert(ps.take(pieces@.len() as int) =~= ps);
    }
    r
}

fn to_strings(v: &Vec<Vec<char>>) -> (r: Vec<String>)
    ensures
        strings_view(r@) == deep(v@),
{
    let mut r: Vec<String> = Vec::new();
    let mut i: usize = 0;
    while i < v.len()
        invariant
            i <= v@.len(),
            strings_view(r@) == deep(v@).take(i as int),
        decreases v@.len() - i,
    {
        let t = string_of(v[i].as_slice());
        let ghost before = strings_view(r@);
        r.push(t);
        proof {
            assert(deep(v@)[i as int] == v@[i as int]@);
            assert(strings_view(r@) =~= before.push(t@));
            assert(strings_view(r@) =~= deep(v@).take(i + 1));
        }
        i = i + 1;
    }
    proof {
        assert(deep(v@).take(v@.len() as int) =~= deep(v@));
    }
    r
}

/// The preferred output order: comma-separated names, trimmed, empty
/// names dropped.
pub open spec fn output_order_spec(value: Seq<char>) -> Seq<Seq<char>> {
    trimmed_nonempty(pieces_by(value, is_sep(',')))
}

/// Parse the preferred output order (`NOVAWM_OUTPUT_ORDER`).
pub fn parse_output_order(value: &str) -> (order: Vec<String>)
    ensures
        strings_view(order@) == output_order_spec(value@),
{
    let chars = chars_of(value);
    let pieces = split_on(chars.as_slice(), ',');
    let names = trimmed_pieces(&pieces);
    to_strings(&names)
}

/// Why the pinned positions could not be read.
#[derive(Clone, Debug)]
pub enum PositionError {
    /// An entry that is not `NAME:X:Y`.
    BadEntry(String),
    /// A coordinate that is not an `i32`.
    BadNumber(IntError),
}

/// What a `PositionError` says.
pub enum PositionFault {
    BadEntry(Seq<char>),
    BadNumber(IntError),
}

/// The pinned positions of the `NAME:X:Y` entries (each part trimmed), in
/// order; the first malformed entry or coordinate is the error.
pub open spec fn positions_spec(entries: Seq<Seq<char>>) -> Result<Seq<(Seq<char>, int, int)>, PositionFault>
    decreases entries.len(),
{
    if entries.len() == 0 {
        Ok(Seq::empty())
    } else {
        match positions_spec(entries.drop_last()) {
            Err(e) => Err(e),
            Ok(ps) => {
                let entry = entries.last();
                let parts = pieces_by(entry, is_sep(':'));
                if parts.len() != 3 {
                    Err(PositionFault::BadEntry(entry))
                } else {
                    match parse_i32_spec(trim_spec(parts[1])) {
                        Err(k) => Err(PositionFault::BadNumber(k)),
                        Ok(x) => match parse_i32_spec(trim_spec(parts[2])) {
                            Err(k) => Err(PositionFault::BadNumber(k)),
                            Ok(y) => Ok(ps.push((trim_spec(parts[0]), x, y))),
                        },
                    }
                }
            },
        }
    }
}

pub open spec fn fault_of(e: PositionError) -> PositionFault {
    match e {
        PositionError::BadEntry(s) => PositionFault::BadEntry(s@),
        PositionError::BadNumber(k) => PositionFault::BadNumber(k),
    }
}

pub open spec fn places_view(v: Seq<(String, i32, i32)>) -> Seq<(Seq<char>, int, int)> {
    v.map_values(|p: (String, i32, i32)| (p.0@, p.1 as int, p.2 as int))
}

/// The pinned positions of the `;`-separated entries, trimmed, empty
/// ones skipped.
pub open spec fn output_positions_spec(value: Seq<char>) -> Result<Seq<(Seq<char>, int, int)>, PositionFault> {
    positions_spec(trimmed_nonempty(pieces_by(value, is_sep(';'))))
}

/// Parse pinned output positions (`NOVAWM_OUTPUT_POSITIONS`):
/// `NAME:X:Y;NAME:X:Y...`.
pub fn parse_output_positions(value: &str) -> (r: Result<Vec<(String, i32, i32)>, PositionError>)
    ensures
        match r {
            Ok(v) => output_positions_spec(value@) == Ok::<Seq<(Seq<char>, int, int)>, PositionFault>(places_view(v@)),
            Err(e) => output_positions_spec(value@) == Err::<Seq<(Seq<char>, int, int)>, PositionFault>(fault_of(e)),
        },
{
    let chars = chars_of(value);
    let pieces = split_on(chars.as_slice(), ';');
    let entries = trimmed_pieces(&pieces);
    let ghost es = deep(entries@);
    let mut out: Vec<(String, i32, i32)> = Vec::new();
    let mut i: usize = 0;
    proof {
        assert(es.take(0) =~= Seq::<Seq<char>>::empty());
        assert(places_view(out@) =~= Seq::<(Seq<char>, int, int)>::empty());
    }
    while i < entries.len()
        invariant
            i <= entries@.len(),
            es == deep(entries@),
            es == trimmed_nonempty(pieces_by(value@, is_sep(';'))),
            positions_spec(es.take(i as int)) == Ok::<Seq<(Seq<char>, int, int)>, PositionFault>(places_view(out@)),
        decreases entries@.len() - i,
    {
        let entry = &entries[i];
        proof {
            assert(es.take(i + 1).drop_last() =~= es.take(i as int));
            assert(es.take(i + 1).last() == entry@);
        }
        let parts = split_on(entry.as_slice(), ':');
        if parts.len() != 3 {
            proof {
                lemma_positions_err_sticks(es, i as int + 1);
            }
            return Err(PositionError::BadEntry(string_of(entry.as_slice())));
        }
        proof {
            assert(deep(parts@)[1] == parts@[1]@);
            assert(deep(parts@)[2] == parts@[2]@);
            assert(deep(parts@)[0] == parts@[0]@);
        }
        let tx = trim_chars(parts[1].as_slice());
        let x = match parse_i32(tx.as_slice()) {
            Ok(x) => x,
            Err(k) => {
                proof {
                    lemma_positions_err_sticks(es, i as int + 1);
                }
                return Err(PositionError::BadNumber(k));
            },
        };
        let ty = trim_chars(parts[2].as_slice());
        let y = match parse_i32(ty.as_slice()) {
            Ok(y) => y,
            Err(k) => {
                proof {
                    lemma_positions_err_sticks(es, i as int + 1);
                }
                return Err(PositionError::BadNumber(k));
            },
        };
        let tn = trim_chars(parts[0].as_slice());
        let name = string_of(tn.as_slice());
        let ghost before = places_view(out@);
        out.push((name, x, y));
        proof {
            assert(places_view(out@) =~= before.push((tn@, x as int, y as int)));
        }
        i = i + 1;
    }
    proof {
        assert(es.take(entries@.len() as int) =~= es);
    }
    Ok(out)
}

proof fn lemma_positions_err_sticks(es: Seq<Seq<char>>, k: int)
    requires
        0 <= k <= es.len(),
        positions_spec(es.take(k)) is Err,
    ensures
        positions_spec(es) == positions_spec(es.take(k)),
    decreases es.len() - k,
{
    if k < es.len() {
        assert(es.take(k + 1).drop_last() =~= es.take(k));
        lemma_positions_err_sticks(es, k + 1);
    } else {
        assert(es.take(k) =~= es);
    }
}

} // verus!

verus! {

/// The order of `String`s: lexicographic by code point.
pub open spec fn name_lt(a: Seq<char>, b: Seq<char>) -> bool
    decreases a.len(),
{
    if a.len() == 0 {
        b.len() > 0
    } else if b.len() == 0 {
        false
    } else if a[0] < b[0] {
        true
    } else if a[0] > b[0] {
        false
    } else {
        name_lt(a.drop_first(), b.drop_first())
    }
}

fn name_lt_exec(a: &[char], b: &[char]) -> (r: bool)
    ensures
        r == name_lt(a@, b@),
{
    let mut i: usize = 0;
    proof {
        assert(a@.skip(0) =~= a@);
        assert(b@.skip(0) =~= b@);
    }
    while i < a.len() && i < b.len() && a[i] == b[i]
        invariant
            i <= a@.len(),
            i <= b@.len(),
            name_lt(a@, b@) == name_lt(a@.skip(i as int), b@.skip(i as int)),
        decreases a@.len() - i,
    {
        proof {
            assert(a@.skip(i as int).drop_first() =~= a@.skip(i + 1));
            assert(b@.skip(i as int).drop_first() =~= b@.skip(i + 1));
        }
        i = i + 1;
    }
    if i == a.len() {
        proof {
            assert(a@.skip(i as int).len() == 0);
        }
        i < b.len()
    } else if i == b.len() {
        proof {
            assert(b@.skip(i as int).len() == 0);
        }
        false
    } else {
        proof {
            assert(a@.skip(i as int)[0] == a@[i as int]);
            assert(b@.skip(i as int)[0] == b@[i as int]);
        }
        a[i] < b[i]
    }
}

/// Where `name` stands in the preferred order, from index `i` on
/// (`usize::MAX` when it is not there).
pub open spec fn rank_of(order: Seq<Seq<char>>, name: Seq<char>, i: int) -> int
    decreases order.len() - i,
{
    if i < 0 || i >= order.len() {
        usize::MAX as int
    } else if order[i] == name {
        i
    } else {
        rank_of(order, name, i + 1)
    }
}

/// Output `a` sorts before output `b`: earlier in the preferred order, or
/// equally placed (both absent) and its name is smaller.
pub open spec fn sorts_before(order: Seq<Seq<char>>, a: Seq<char>, b: Seq<char>) -> bool {
    rank_of(order, a, 0) < rank_of(order, b, 0) || (rank_of(order, a, 0) == rank_of(order, b, 0) && name_lt(a, b))
}

/// Where an output named `x` goes among the sorted `s`: before the first
/// one it sorts before, from index `i` on (after all that do not).
pub open spec fn insert_index(order: Seq<Seq<char>>, s: Seq<(Seq<char>, Option<i32>)>, x: Seq<char>, i: int) -> int
    decreases s.len() - i,
{
    if i < 0 || i >= s.len() {
        s.len() as int
    } else if sorts_before(order, x, s[i].0) {
        i
    } else {
        insert_index(order, s, x, i + 1)
    }
}

/// The outputs sorted by preferred position, then name; outputs that tie
/// keep their order.
pub open spec fn sorted_outputs(order: Seq<Seq<char>>, outs: Seq<(Seq<char>, Option<i32>)>) -> Seq<(Seq<char>, Option<i32>)>
    decreases outs.len(),
{
    if outs.len() == 0 {
        Seq::empty()
    } else {
        let s = sorted_outputs(order, outs.drop_last());
        s.insert(insert_index(order, s, outs.last().0, 0), outs.last())
    }
}

/// The last pinned position of `name` among the first `k` of `env`.
pub open spec fn env_position(env: Seq<(Seq<char>, int, int)>, name: Seq<char>, k: int) -> Option<(int, int)>
    decreases k,
{
    if k <= 0 || k > env.len() {
        None
    } else if env[k - 1].0 == name {
        Some((env[k - 1].1, env[k - 1].2))
    } else {
        env_position(env, name, k - 1)
    }
}

/// The first configured position of `name`, from index `i` on.
pub open spec fn config_position(config: Seq<(Seq<char>, int, int)>, name: Seq<char>, i: int) -> Option<(int, int)>
    decreases config.len() - i,
{
    if i < 0 || i >= config.len() {
        None
    } else if config[i].0 == name {
        Some((config[i].1, config[i].2))
    } else {
        config_position(config, name, i + 1)
    }
}

/// Where `name` is pinned: the environment's last entry for it, else the
/// config's first.
pub open spec fn pinned(env: Seq<(Seq<char>, int, int)>, config: Seq<(Seq<char>, int, int)>, name: Seq<char>) -> Option<(int, int)> {
    match env_position(env, name, env.len() as int) {
        Some(p) => Some(p),
        None => config_position(config, name, 0),
    }
}

/// The first `k` sorted outputs placed: pinned ones where pinned, the
/// others at the right edge so far (at the top); outputs without a
/// geometry are left out. Also the right edge after them.
pub open spec fn placed(
    sorted: Seq<(Seq<char>, Option<i32>)>,
    env: Seq<(Seq<char>, int, int)>,
    config: Seq<(Seq<char>, int, int)>,
    k: nat,
) -> (Seq<(Seq<char>, int, int)>, int)
    decreases k,
{
    if k == 0 || k > sorted.len() {
        (Seq::empty(), 0)
    } else {
        let (ps, right) = placed(sorted, env, config, (k - 1) as nat);
        let (name, geometry) = sorted[k - 1];
        match geometry {
            None => (ps, right),
            Some(w) => {
                let p = match pinned(env, config, name) {
                    Some(p) => p,
                    None => (right, 0),
                };
                (ps.push((name, p.0, p.1)), imax(right, p.0 + w))
            },
        }
    }
}

/// No right edge of the first `k` placed outputs leaves `i32`.
pub open spec fn placement_fits(
    sorted: Seq<(Seq<char>, Option<i32>)>,
    env: Seq<(Seq<char>, int, int)>,
    config: Seq<(Seq<char>, int, int)>,
    k: nat,
) -> bool
    decreases k,
{
    if k == 0 || k > sorted.len() {
        true
    } else {
        let right = placed(sorted, env, config, (k - 1) as nat).1;
        &&& placement_fits(sorted, env, config, (k - 1) as nat)
        &&& match sorted[k - 1].1 {
            None => true,
            Some(w) => {
                let p = match pinned(env, config, sorted[k - 1].0) {
                    Some(p) => p,
                    None => (right, 0),
                };
                i32::MIN <= p.0 + w <= i32::MAX
            },
        }
    }
}

/// Whether `name` is among the outputs.
pub open spec fn is_output(outs: Seq<(Seq<char>, Option<i32>)>, name: Seq<char>) -> bool {
    exists|i: int| 0 <= i < outs.len() && outs[i].0 == name
}

/// The first of `names` that is not an output.
pub open spec fn first_unknown(names: Seq<Seq<char>>, outs: Seq<(Seq<char>, Option<i32>)>, i: int) -> Option<Seq<char>>
    decreases names.len() - i,
{
    if i < 0 || i >= names.len() {
        None
    } else if !is_output(outs, names[i]) {
        Some(names[i])
    } else {
        first_unknown(names, outs, i + 1)
    }
}

pub open spec fn names_of(ps: Seq<(Seq<char>, int, int)>) -> Seq<Seq<char>> {
    ps.map_values(|p: (Seq<char>, int, int)| p.0)
}

pub open spec fn outs_view(v: Seq<(String, Option<i32>)>) -> Seq<(Seq<char>, Option<i32>)> {
    v.map_values(|p: (String, Option<i32>)| (p.0@, p.1))
}

/// Why the outputs could not be laid out.
#[derive(Clone, Debug)]
pub enum LayoutError {
    /// A name in the preferred order or among the pinned positions is not a
    /// connected output.
    UnknownOutput(String),
    /// An output's right edge would leave the `i32` range.
    Overflow,
}

/// The layout, or what stops it: the first name of the preferred order,
/// then of the environment's pins, then of the config's pins, that is not
/// an output; else the placement (an overflow when it leaves `i32`).
pub open spec fn layout_spec(
    outs: Seq<(Seq<char>, Option<i32>)>,
    order: Seq<Seq<char>>,
    env: Seq<(Seq<char>, int, int)>,
    config: Seq<(Seq<char>, int, int)>,
) -> Result<Seq<(Seq<char>, int, int)>, Option<Seq<char>>> {
    match first_unknown(order + names_of(env) + names_of(config), outs, 0) {
        Some(n) => Err(Some(n)),
        None => {
            let sorted = sorted_outputs(order, outs);
            if placement_fits(sorted, env, config, outs.len()) {
                Ok(placed(sorted, env, config, outs.len()).0)
            } else {
                Err(None)
            }
        },
    }
}

pub open spec fn layout_error_view(e: LayoutError) -> Option<Seq<char>> {
    match e {
        LayoutError::UnknownOutput(n) => Some(n@),
        LayoutError::Overflow => None,
    }
}

} // verus!

verus! {

proof fn lemma_sorted_len(order: Seq<Seq<char>>, outs: Seq<(Seq<char>, Option<i32>)>)
    ensures
        sorted_outputs(order, outs).len() == outs.len(),
    decreases outs.len(),
{
    if outs.len() > 0 {
        lemma_sorted_len(order, outs.drop_last());
        lemma_insert_index_bounds(order, sorted_outputs(order, outs.drop_last()), outs.last().0, 0);
    }
}

proof fn lemma_insert_index_bounds(order: Seq<Seq<char>>, s: Seq<(Seq<char>, Option<i32>)>, x: Seq<char>, i: int)
    requires
        0 <= i,
    ensures
        0 <= insert_index(order, s, x, i) <= s.len(),
    decreases s.len() - i,
{
    if i < s.len() && !sorts_before(order, x, s[i].0) {
        lemma_insert_index_bounds(order, s, x, i + 1);
    }
}

fn rank_exec(order: &[String], name: &str) -> (r: usize)
    ensures
        r as int == rank_of(strings_view(order@), name@, 0),
{
    let ghost ov = strings_view(order@);
    let mut i: usize = 0;
    while i < order.len()
        invariant
            i <= order@.len(),
            ov == strings_view(order@),
            rank_of(ov, name@, 0) == rank_of(ov, name@, i as int),
        decreases order@.len() - i,
    {
        assert(ov[i as int] == order@[i as int]@);
        if str_eq(order[i].as_str(), name) {
            return i;
        }
        i = i + 1;
    }
    usize::MAX
}

fn sorts_before_exec(order: &[String], a: &str, b: &str) -> (r: bool)
    ensures
        r == sorts_before(strings_view(order@), a@, b@),
{
    let ra = rank_exec(order, a);
    let rb = rank_exec(order, b);
    if ra < rb {
        true
    } else if ra == rb {
        let ca = chars_of(a);
        let cb = chars_of(b);
        name_lt_exec(ca.as_slice(), cb.as_slice())
    } else {
        false
    }
}

proof fn lemma_insert_skip(order: Seq<Seq<char>>, s: Seq<(Seq<char>, Option<i32>)>, x: Seq<char>, i: int, j: int)
    requires
        0 <= i <= j <= s.len(),
        forall|k: int| i <= k < j ==> !sorts_before(order, x, #[trigger] s[k].0),
    ensures
        insert_index(order, s, x, i) == insert_index(order, s, x, j),
    decreases j - i,
{
    if i < j {
        lemma_insert_skip(order, s, x, i + 1, j);
    }
}

/// The outputs sorted by preferred position, then name.
fn sort_outputs(outputs: &[(String, Option<i32>)], order: &[String]) -> (sorted: Vec<(String, Option<i32>)>)
    ensures
        outs_view(sorted@) == sorted_outputs(strings_view(order@), outs_view(outputs@)),
{
    let ghost ov = strings_view(order@);
    let ghost all = outs_view(outputs@);
    let mut sorted: Vec<(String, Option<i32>)> = Vec::new();
    let mut i: usize = 0;
    while i < outputs.len()
        invariant
            i <= outputs@.len(),
            ov == strings_view(order@),
            all == outs_view(outputs@),
            outs_view(sorted@) == sorted_outputs(ov, all.take(i as int)),
        decreases outputs@.len() - i,
    {
        let ghost sv = outs_view(sorted@);
        let name = outputs[i].0.as_str();
        proof {
            assert(all.take(i + 1).drop_last() =~= all.take(i as int));
            assert(all.take(i + 1).last() == (outputs@[i as int].0@, outputs@[i as int].1));
        }
        let mut j: usize = 0;
        while j < sorted.len() && !sorts_before_exec(order, name, sorted[j].0.as_str())
            invariant
                j <= sorted@.len(),
                ov == strings_view(order@),
                sv == outs_view(sorted@),
                name@ == outputs@[i as int].0@,
                forall|k: int| 0 <= k < j ==> !sorts_before(ov, name@, #[trigger] sv[k].0),
            decreases sorted@.len() - j,
        {
            assert(sv[j as int].0 == sorted@[j as int].0@);
            j = j + 1;
        }
        proof {
            lemma_insert_skip(ov, sv, name@, 0, j as int);
            if j < sorted@.len() {
                assert(sv[j as int].0 == sorted@[j as int].0@);
            }
        }
        let item = (outputs[i].0.clone(), outputs[i].1);
        sorted.insert(j, item);
        proof {
            assert(outs_view(sorted@) =~= sv.insert(j as int, (outputs@[i as int].0@, outputs@[i as int].1)));
        }
        i = i + 1;
    }
    proof {
        assert(all.take(outputs@.len() as int) =~= all);
    }
    sorted
}

fn pinned_exec(env: &[(String, i32, i32)], config: &[(String, i32, i32)], name: &str) -> (p: Option<(i32, i32)>)
    ensures
        match p {
            Some(q) => pinned(places_view(env@), places_view(config@), name@) == Some((q.0 as int, q.1 as int)),
            None => pinned(places_view(env@), places_view(config@), name@) is None,
        },
{
    let ghost ev = places_view(env@);
    let ghost cv = places_view(config@);
    let mut k: usize = env.len();
    while k > 0
        invariant
            k <= env@.len(),
            ev == places_view(env@),
            env_position(ev, name@, env@.len() as int) == env_position(ev, name@, k as int),
        decreases k,
    {
        assert(ev[k - 1] == (env@[k - 1].0@, env@[k - 1].1 as int, env@[k - 1].2 as int));
        if str_eq(env[k - 1].0.as_str(), name) {
            return Some((env[k - 1].1, env[k - 1].2));
        }
        k = k - 1;
    }
    let mut i: usize = 0;
    while i < config.len()
        invariant
            i <= config@.len(),
            cv == places_view(config@),
            ev == places_view(env@),
            env_position(ev, name@, env@.len() as int) is None,
            config_position(cv, name@, 0) == config_position(cv, name@, i as int),
        decreases config@.len() - i,
    {
        assert(cv[i as int] == (config@[i as int].0@, config@[i as int].1 as int, config@[i as int].2 as int));
        if str_eq(config[i].0.as_str(), name) {
            return Some((config[i].1, config[i].2));
        }
        i = i + 1;
    }
    None
}

proof fn lemma_fits_prefix(
    sorted: Seq<(Seq<char>, Option<i32>)>,
    env: Seq<(Seq<char>, int, int)>,
    config: Seq<(Seq<char>, int, int)>,
    k: nat,
    n: nat,
)
    requires
        k <= n <= sorted.len(),
        placement_fits(sorted, env, config, n),
    ensures
        placement_fits(sorted, env, config, k),
    decreases n - k,
{
    if k < n {
        lemma_fits_prefix(sorted, env, config, k, (n - 1) as nat);
    }
}

fn is_output_exec(outputs: &[(String, Option<i32>)], name: &str) -> (b: bool)
    ensures
        b == is_output(outs_view(outputs@), name@),
{
    let ghost v = outs_view(outputs@);
    let mut i: usize = 0;
    while i < outputs.len()
        invariant
            i <= outputs@.len(),
            v == outs_view(outputs@),
            forall|k: int| 0 <= k < i ==> v[k].0 != name@,
        decreases outputs@.len() - i,
    {
        assert(v[i as int].0 == outputs@[i as int].0@);
        if str_eq(outputs[i].0.as_str(), name) {
            return true;
        }
        i = i + 1;
    }
    false
}

fn pinned_names(order: &[String], env: &[(String, i32, i32)], config: &[(String, i32, i32)]) -> (names: Vec<String>)
    ensures
        strings_view(names@) == strings_view(order@) + names_of(places_view(env@)) + names_of(places_view(config@)),
{
    let mut names: Vec<String> = Vec::new();
    let mut i: usize = 0;
    while i < order.len()
        invariant
            i <= order@.len(),
            strings_view(names@) == strings_view(order@).take(i as int),
        decreases order@.len() - i,
    {
        let ghost before = strings_view(names@);
        names.push(order[i].clone());
        proof {
            assert(strings_view(names@) =~= before.push(order@[i as int]@));
            assert(strings_view(names@) =~= strings_view(order@).take(i + 1));
        }
        i = i + 1;
    }
    let ghost a = strings_view(order@);
    proof {
        assert(a.take(order@.len() as int) =~= a);
    }
    let mut j: usize = 0;
    while j < env.len()
        invariant
            j <= env@.len(),
            a == strings_view(order@),
            strings_view(names@) == a + names_of(places_view(env@)).take(j as int),
        decreases env@.len() - j,
    {
        let ghost before = strings_view(names@);
        names.push(env[j].0.clone());
        proof {
            assert(strings_view(names@) =~= before.push(env@[j as int].0@));
            assert(strings_view(names@) =~= a + names_of(places_view(env@)).take(j + 1));
        }
        j = j + 1;
    }
    let ghost b = a + names_of(places_view(env@));
    proof {
        assert(names_of(places_view(env@)).take(env@.len() as int) =~= names_of(places_view(env@)));
    }
    let mut k: usize = 0;
    while k < config.len()
        invariant
            k <= config@.len(),
            b == strings_view(order@) + names_of(places_view(env@)),
            strings_view(names@) == b + names_of(places_view(config@)).take(k as int),
        decreases config@.len() - k,
    {
        let ghost before = strings_view(names@);
        names.push(config[k].0.clone());
        proof {
            assert(strings_view(names@) =~= before.push(config@[k as int].0@));
            assert(strings_view(names@) =~= b + names_of(places_view(config@)).take(k + 1));
        }
        k = k + 1;
    }
    proof {
        assert(names_of(places_view(config@)).take(config@.len() as int) =~= names_of(places_view(config@)));
    }
    names
}

/// Lay the outputs out: `outputs` are the connected outputs with their
/// widths (`None` where an output has no geometry), `order` the preferred
/// order, `env` the positions pinned by the environment and `config` those
/// of the `monitor` nodes. Outputs sort by preferred position, then name;
/// each goes to its pinned place, or at the top right of those placed
/// before it.
pub fn layout_outputs(
    outputs: &[(String, Option<i32>)],
    order: &[String],
    env: &[(String, i32, i32)],
    config: &[(String, i32, i32)],
) -> (r: Result<Vec<(String, i32, i32)>, LayoutError>)
    ensures
        match r {
            Ok(v) => layout_spec(outs_view(outputs@), strings_view(order@), places_view(env@), places_view(config@))
                == Ok::<Seq<(Seq<char>, int, int)>, Option<Seq<char>>>(places_view(v@)),
            Err(e) => layout_spec(outs_view(outputs@), strings_view(order@), places_view(env@), places_view(config@))
                == Err::<Seq<(Seq<char>, int, int)>, Option<Seq<char>>>(layout_error_view(e)),
        },
{
    let ghost ov = outs_view(outputs@);
    let ghost ev = places_view(env@);
    let ghost cv = places_view(config@);
    let names = pinned_names(order, env, config);
    let ghost nv = strings_view(names@);
    let mut u: usize = 0;
    while u < names.len()
        invariant
            u <= names@.len(),
            nv == strings_view(names@),
            nv == strings_view(order@) + names_of(places_view(env@)) + names_of(places_view(config@)),
            ov == outs_view(outputs@),
            first_unknown(nv, ov, 0) == first_unknown(nv, ov, u as int),
        decreases names@.len() - u,
    {
        assert(nv[u as int] == names@[u as int]@);
        if !is_output_exec(outputs, names[u].as_str()) {
            return Err(LayoutError::UnknownOutput(names[u].clone()));
        }
        u = u + 1;
    }
    let sorted = sort_outputs(outputs, order);
    let ghost sv = outs_view(sorted@);
    proof {
        lemma_sorted_len(strings_view(order@), ov);
    }
    let mut placed_out: Vec<(String, i32, i32)> = Vec::new();
    let mut right: i64 = 0;
    let mut k: usize = 0;
    while k < sorted.len()
        invariant
            k <= sorted@.len(),
            sv == outs_view(sorted@),
            sv.len() == outputs@.len(),
            ov == outs_view(outputs@),
            sv == sorted_outputs(strings_view(order@), ov),
            first_unknown(strings_view(order@) + names_of(places_view(env@)) + names_of(places_view(config@)), ov, 0) is None,
            ev == places_view(env@),
            cv == places_view(config@),
            placement_fits(sv, ev, cv, k as nat),
            placed(sv, ev, cv, k as nat) == (places_view(placed_out@), right as int),
            i32::MIN <= right <= i32::MAX,
        decreases sorted@.len() - k,
    {
        assert(sv[k as int] == (sorted@[k as int].0@, sorted@[k as int].1));
        match sorted[k].1 {
            None => {},
            Some(w) => {
                let p = match pinned_exec(env, config, sorted[k].0.as_str()) {
                    Some(q) => q,
                    None => (right as i32, 0),
                };
                let edge = p.0 as i64 + w as i64;
                if edge < i32::MIN as i64 || edge > i32::MAX as i64 {
                    proof {
                        assert(!placement_fits(sv, ev, cv, (k + 1) as nat));
                        if placement_fits(sv, ev, cv, sv.len()) {
                            lemma_fits_prefix(sv, ev, cv, (k + 1) as nat, sv.len());
                        }
                    }
                    return Err(LayoutError::Overflow);
                }
                let ghost before = places_view(placed_out@);
                placed_out.push((sorted[k].0.clone(), p.0, p.1));
                proof {
                    assert(places_view(placed_out@) =~= before.push((sv[k as int].0, p.0 as int, p.1 as int)));
                }
                if edge > right {
                    right = edge;
                }
            },
        }
        k = k + 1;
    }
    Ok(placed_out)
}

} // verus!

verus! {

/// Squared distance from the pointer to an output's centre, both doubled so
/// that the centre of an odd-sized output stays whole.
pub open spec fn center_distance2(r: Rect, p: Option<Point>) -> int {
    match p {
        Some(p) => {
            let dx = 2 * r.loc.x + r.size.w - 2 * p.x;
            let dy = 2 * r.loc.y + r.size.h - 2 * p.y;
            dx * dx + dy * dy
        },
        None => 0,
    }
}

/// Index of the first output at or after `i` that contains `p` (-1 if none).
pub open spec fn first_output_containing(outs: Seq<Rect>, p: Point, i: int) -> int
    decreases outs.len() - i,
{
    if i < 0 || i >= outs.len() {
        -1
    } else if rect_contains_spec(outs[i], p) {
        i
    } else {
        first_output_containing(outs, p, i + 1)
    }
}

/// Index of the first among the first `n` outputs whose centre is nearest
/// to the pointer.
pub open spec fn nearest_output_upto(outs: Seq<Rect>, p: Option<Point>, n: int) -> int
    decreases n,
{
    if n <= 1 {
        0
    } else {
        let b = nearest_output_upto(outs, p, n - 1);
        if center_distance2(outs[n - 1], p) < center_distance2(outs[b], p) {
            n - 1
        } else {
            b
        }
    }
}

/// The output that owns a point: the first one whose rect contains it, or
/// failing that (the point is off every screen, or there is no point) the
/// one whose centre is nearest, the first of equally near ones; none when
/// there are no outputs.
pub open spec fn output_under_spec(outs: Seq<Rect>, pos: Option<Point>) -> Option<int> {
    if pos is Some && first_output_containing(outs, pos->0, 0) >= 0 {
        Some(first_output_containing(outs, pos->0, 0))
    } else if outs.len() == 0 {
        None
    } else {
        Some(nearest_output_upto(outs, pos, outs.len() as int))
    }
}

proof fn lemma_nearest_output_range(outs: Seq<Rect>, p: Option<Point>, n: int)
    requires
        n >= 1,
    ensures
        0 <= nearest_output_upto(outs, p, n) < n,
    decreases n,
{
    if n > 1 {
        lemma_nearest_output_range(outs, p, n - 1);
    }
}

proof fn lemma_first_output_skip(outs: Seq<Rect>, p: Point, i: int, c: int)
    requires
        0 <= i <= c,
        c <= outs.len(),
        forall|j: int| i <= j < c ==> !rect_contains_spec(#[trigger] outs[j], p),
    ensures
        first_output_containing(outs, p, i) == first_output_containing(outs, p, c),
    decreases c - i,
{
    if i < c {
        lemma_first_output_skip(outs, p, i + 1, c);
    }
}

proof fn lemma_first_output_found(outs: Seq<Rect>, p: Point, i: int, j: int)
    requires
        0 <= i <= j < outs.len(),
        rect_contains_spec(outs[j], p),
    ensures
        i <= first_output_containing(outs, p, i) <= j,
        rect_contains_spec(outs[first_output_containing(outs, p, i)], p),
        forall|k: int| i <= k < first_output_containing(outs, p, i) ==> !rect_contains_spec(#[trigger] outs[k], p),
    decreases j - i,
{
    if !rect_contains_spec(outs[i], p) {
        lemma_first_output_found(outs, p, i + 1, j);
    }
}

/// A point that lies on some output is owned by the first output that
/// contains it; any other point, while there are outputs, by one of them.
pub proof fn lemma_output_under_owns_point(outs: Seq<Rect>, p: Point, j: int)
    requires
        0 <= j < outs.len(),
    ensures
        output_under_spec(outs, Some(p)) is Some,
        0 <= output_under_spec(outs, Some(p))->0 < outs.len(),
        rect_contains_spec(outs[j], p) ==> {
            let i = output_under_spec(outs, Some(p))->0;
            &&& rect_contains_spec(outs[i], p)
            &&& i <= j
            &&& forall|k: int| 0 <= k < i ==> !rect_contains_spec(#[trigger] outs[k], p)
        },
{
    if rect_contains_spec(outs[j], p) {
        lemma_first_output_found(outs, p, 0, j);
    } else if first_output_containing(outs, p, 0) >= 0 {
        lemma_first_output_in_range(outs, p, 0);
    } else {
        lemma_nearest_output_range(outs, Some(p), outs.len() as int);
    }
}

proof fn lemma_first_output_in_range(outs: Seq<Rect>, p: Point, i: int)
    requires
        0 <= i,
    ensures
        first_output_containing(outs, p, i) >= 0 ==> i <= first_output_containing(outs, p, i) < outs.len(),
    decreases outs.len() - i,
{
    if i < outs.len() && !rect_contains_spec(outs[i], p) {
        lemma_first_output_in_range(outs, p, i + 1);
    }
}

fn center_distance2_exec(r: Rect, p: Option<Point>) -> (d: i128)
    ensures
        d == center_distance2(r, p),
{
    match p {
        Some(p) => {
            let dx: i128 = 2 * (r.loc.x as i128) + r.size.w as i128 - 2 * (p.x as i128);
            let dy: i128 = 2 * (r.loc.y as i128) + r.size.h as i128 - 2 * (p.y as i128);
            assert(dx * dx <= 0x100_0000_0000_0000_0000) by (nonlinear_arith)
                requires
                    -0x8_0000_0000 <= dx <= 0x8_0000_0000,
            ;
            assert(dy * dy <= 0x100_0000_0000_0000_0000) by (nonlinear_arith)
                requires
                    -0x8_0000_0000 <= dy <= 0x8_0000_0000,
            ;
            assert(0 <= dx * dx) by (nonlinear_arith);
            assert(0 <= dy * dy) by (nonlinear_arith);
            dx * dx + dy * dy
        },
        None => 0,
    }
}

/// Picks the output that owns `pos` among `outputs` (their rects in the
/// global layout), as an index into `outputs`.
pub fn output_under(outputs: &[Rect], pos: Option<Point>) -> (r: Option<usize>)
    ensures
        r matches Some(i) ==> i < outputs.len(),
        (match r {
            Some(i) => Some(i as int),
            None => None,
        }) == output_under_spec(outputs@, pos),
{
    let ghost os = outputs@;
    if outputs.len() == 0 {
        return None;
    }
    let mut best: usize = 0;
    let mut best_dist: i128 = 0;
    let mut i: usize = 0;
    while i < outputs.len()
        invariant
            os == outputs@,
            os.len() >= 1,
            i <= os.len(),
            pos is Some ==> forall|j: int| 0 <= j < i ==> !rect_contains_spec(#[trigger] os[j], pos->0),
            i > 0 ==> best as int == nearest_output_upto(os, pos, i as int),
            i > 0 ==> best_dist == center_distance2(os[best as int], pos),
            i > 0 ==> best < i,
        decreases os.len() - i,
    {
        let rect = outputs[i];
        if let Some(p) = pos {
            if rect.contains(p) {
                proof {
                    lemma_first_output_skip(os, p, 0, i as int);
                    assert(rect == os[i as int]);
                    assert(first_output_containing(os, p, i as int) == i);
                }
                return Some(i);
            }
        }
        let dist = center_distance2_exec(rect, pos);
        if i == 0 || dist < best_dist {
            best = i;
            best_dist = dist;
        }
        i = i + 1;
    }
    proof {
        if pos is Some {
            lemma_first_output_skip(os, pos->0, 0, os.len() as int);
        }
        lemma_nearest_output_range(os, pos, os.len() as int);
    }
    Some(best)
}

} // verus!

verus! {

/// The right edge of the rightmost of the first `k` outputs (`None` when
/// there are none).
pub open spec fn right_edge_upto(outs: Seq<Rect>, k: int) -> Option<int>
    decreases k,
{
    if k <= 0 {
        None
    } else {
        let e = outs[k - 1].loc.x + outs[k - 1].size.w;
        match right_edge_upto(outs, k - 1) {
            Some(m) => Some(if e > m { e } else { m }),
            None => Some(e),
        }
    }
}

/// The first `monitor` entry, from index `i` on, for the output `name`.
pub open spec fn monitor_entry(ms: Seq<crate::config::MonitorConfig>, name: Seq<char>, i: int) -> Option<(i32, i32)>
    decreases ms.len() - i,
{
    if i < 0 || i >= ms.len() {
        None
    } else if ms[i].name@ == name {
        Some((ms[i].x, ms[i].y))
    } else {
        monitor_entry(ms, name, i + 1)
    }
}

/// Where a newly connected output goes: where its `monitor` entry puts it,
/// else at the top, right of the rightmost output already there (at the
/// origin when it is the first).
pub open spec fn hotplug_position_spec(outs: Seq<Rect>, ms: Seq<crate::config::MonitorConfig>, name: Seq<char>) -> (int, int) {
    match monitor_entry(ms, name, 0) {
        Some((x, y)) => (x as int, y as int),
        None => match right_edge_upto(outs, outs.len() as int) {
            Some(e) => (e, 0),
            None => (0, 0),
        },
    }
}

/// Places a newly connected output given the outputs already laid out.
pub fn hotplug_position(outputs: &[Rect], monitors: &[crate::config::MonitorConfig], name: &str) -> (p: Point)
    requires
        forall|i: int| 0 <= i < outputs@.len() ==> fits_i32_edge(#[trigger] outputs@[i]),
    ensures
        (p.x as int, p.y as int) == hotplug_position_spec(outputs@, monitors@, name@),
{
    let mut i: usize = 0;
    while i < monitors.len()
        invariant
            i <= monitors@.len(),
            monitor_entry(monitors@, name@, 0) == monitor_entry(monitors@, name@, i as int),
        decreases monitors@.len() - i,
    {
        if str_eq(monitors[i].name.as_str(), name) {
            return Point { x: monitors[i].x, y: monitors[i].y };
        }
        i = i + 1;
    }
    let mut best: Option<i32> = None;
    let mut k: usize = 0;
    while k < outputs.len()
        invariant
            k <= outputs@.len(),
            forall|j: int| 0 <= j < outputs@.len() ==> fits_i32_edge(#[trigger] outputs@[j]),
            match best {
                Some(b) => right_edge_upto(outputs@, k as int) == Some(b as int),
                None => right_edge_upto(outputs@, k as int) is None,
            },
        decreases outputs@.len() - k,
    {
        let r = outputs[k];
        proof {
            assert(fits_i32_edge(outputs@[k as int]));
        }
        let e = r.loc.x + r.size.w;
        best = match best {
            Some(b) => Some(if e > b { e } else { b }),
            None => Some(e),
        };
        k = k + 1;
    }
    match best {
        Some(b) => Point { x: b, y: 0 },
        None => Point { x: 0, y: 0 },
    }
}

/// An output's right edge fits `i32`.
pub open spec fn fits_i32_edge(r: Rect) -> bool {
    crate::geometry::fits_i32(r.loc.x + r.size.w)
}

proof fn lemma_right_edge_upto(outs: Seq<Rect>, k: int)
    requires
        0 <= k <= outs.len(),
    ensures
        k == 0 <==> right_edge_upto(outs, k) is None,
        right_edge_upto(outs, k) matches Some(e) ==> (forall|i: int| 0 <= i < k ==> e >= #[trigger] outs[i].loc.x
            + outs[i].size.w) && (exists|i: int| 0 <= i < k && e == #[trigger] outs[i].loc.x + outs[i].size.w),
    decreases k,
{
    if k > 0 {
        lemma_right_edge_upto(outs, k - 1);
        let e = outs[k - 1].loc.x + outs[k - 1].size.w;
        assert(e == outs[k - 1].loc.x + outs[k - 1].size.w);
    }
}

proof fn lemma_monitor_entry(ms: Seq<crate::config::MonitorConfig>, name: Seq<char>, i: int)
    requires
        0 <= i,
    ensures
        monitor_entry(ms, name, i) matches Some(p) ==> exists|j: int|
            i <= j < ms.len() && #[trigger] ms[j].name@ == name && p == (ms[j].x, ms[j].y) && forall|k: int|
                i <= k < j ==> #[trigger] ms[k].name@ != name,
        monitor_entry(ms, name, i) is None ==> forall|k: int| i <= k < ms.len() ==> #[trigger] ms[k].name@ != name,
    decreases ms.len() - i,
{
    if i < ms.len() && ms[i].name@ != name {
        lemma_monitor_entry(ms, name, i + 1);
        if monitor_entry(ms, name, i) is Some {
            let j = choose|j: int|
                i + 1 <= j < ms.len() && #[trigger] ms[j].name@ == name && monitor_entry(ms, name, i)->0 == (
                ms[j].x, ms[j].y) && forall|k: int| i + 1 <= k < j ==> #[trigger] ms[k].name@ != name;
            assert(forall|k: int| i <= k < j ==> #[trigger] ms[k].name@ != name);
        }
    }
}

/// A newly connected output with a `monitor` entry goes where the first
/// entry naming it says; without one it goes to the top, right of every
/// output already there and against the rightmost one (so it overlaps
/// none of them), or to the origin when it is the first.
pub proof fn lemma_hotplug_never_overlaps(outs: Seq<Rect>, ms: Seq<crate::config::MonitorConfig>, name: Seq<char>)
    ensures
        ({
            let p = hotplug_position_spec(outs, ms, name);
            &&& (exists|j: int| 0 <= j < ms.len() && #[trigger] ms[j].name@ == name) ==> exists|j: int|
                0 <= j < ms.len() && #[trigger] ms[j].name@ == name && p == (ms[j].x as int, ms[j].y as int)
                && forall|k: int| 0 <= k < j ==> #[trigger] ms[k].name@ != name
            &&& (forall|j: int| 0 <= j < ms.len() ==> #[trigger] ms[j].name@ != name) ==> {
                &&& p.1 == 0
                &&& forall|i: int| 0 <= i < outs.len() ==> p.0 >= #[trigger] outs[i].loc.x + outs[i].size.w
                &&& outs.len() > 0 ==> exists|i: int| 0 <= i < outs.len() && p.0 == #[trigger] outs[i].loc.x
                    + outs[i].size.w
                &&& outs.len() == 0 ==> p.0 == 0
            }
        }),
{
    lemma_monitor_entry(ms, name, 0);
    lemma_right_edge_upto(outs, outs.len() as int);
    if monitor_entry(ms, name, 0) is Some {
        let j = choose|j: int|
            0 <= j < ms.len() && #[trigger] ms[j].name@ == name && monitor_entry(ms, name, 0)->0 == (ms[j].x, ms[j].y)
                && forall|k: int| 0 <= k < j ==> #[trigger] ms[k].name@ != name;
        assert(ms[j].name@ == name);
    } else {
        if exists|j: int| 0 <= j < ms.len() && #[trigger] ms[j].name@ == name {
            let j = choose|j: int| 0 <= j < ms.len() && #[trigger] ms[j].name@ == name;
            assert(ms[j].name@ != name);
        }
    }
}

} // verus!
