//! Shape reflection: the catalogue of every legal combination of concrete
//! parameter types a node accepts.
//!
//! An [`InputInfo`] describes one parameter position, an [`InputGroup`] is
//! one fully concrete legal shape, and [`PossibleInputs`] is the ordered
//! set of all legal shapes; the order is insertion order and is the order
//! used for first-match and best-match scoring.

use vstd::prelude::*;

use crate::erase::{kinds_of, DynValue, TypeKey};
use itertools::Itertools;

verus! {

/// The mathematical content of one parameter position.
pub struct InfoModel {
    pub name: Seq<char>,
    pub ty_name: Seq<char>,
    pub type_id: TypeKey,
    pub optional: bool,
}

/// One declared parameter position: its name, a human-readable type
/// label, the runtime type it matches, and whether it may be absent.
#[derive(Debug, Clone, PartialEq)]
pub struct InputInfo {
    pub name: String,
    pub ty_name: String,
    pub type_id: TypeKey,
    pub optional: bool,
}

impl InputInfo {
    pub open spec fn model(self) -> InfoModel {
        InfoModel {
            name: self.name@,
            ty_name: self.ty_name@,
            type_id: self.type_id,
            optional: self.optional,
        }
    }
}

/// One fully concrete legal shape: one entry per declared parameter
/// position, in order.
#[derive(Debug, Clone, PartialEq)]
pub struct InputGroup {
    pub info: Vec<InputInfo>,
}

/// Matching positions between a declared shape and an actual run of
/// runtime types, counted position by position up to the shorter length.
pub open spec fn match_count(infos: Seq<InfoModel>, kinds: Seq<TypeKey>) -> int
    decreases infos.len(),
{
    if infos.len() == 0 || kinds.len() == 0 {
        0
    } else {
        (if infos[0].type_id == kinds[0] {
            1int
        } else {
            0int
        }) + match_count(infos.drop_first(), kinds.drop_first())
    }
}

proof fn lemma_match_count_bounds(infos: Seq<InfoModel>, kinds: Seq<TypeKey>)
    ensures
        0 <= match_count(infos, kinds) <= infos.len(),
    decreases infos.len(),
{
    if infos.len() != 0 && kinds.len() != 0 {
        lemma_match_count_bounds(infos.drop_first(), kinds.drop_first());
    }
}

impl InputGroup {
    pub open spec fn models(self) -> Seq<InfoModel> {
        self.info@.map_values(|i: InputInfo| i.model())
    }

    /// The type-match score of this shape against an actual input run.
    pub fn score(&self, inputs: &Vec<DynValue>) -> (r: usize)
        ensures
            r == match_count(self.models(), kinds_of(inputs@)),
    {
        let n = if self.info.len() < inputs.len() {
            self.info.len()
        } else {
            inputs.len()
        };
        let ghost ms = self.models();
        let ghost ks = kinds_of(inputs@);
        let mut acc: usize = 0;
        let mut i: usize = 0;
        proof {
            lemma_match_count_bounds(ms, ks);
            assert(ms.skip(0) =~= ms);
            assert(ks.skip(0) =~= ks);
        }
        while i < n
            invariant
                ms == self.models(),
                ks == kinds_of(inputs@),
                ms.len() == self.info@.len(),
                ks.len() == inputs@.len(),
                n == if ms.len() < ks.len() {
                    ms.len() as int
                } else {
                    ks.len() as int
                },
                i <= n,
                acc <= i,
                acc + match_count(ms.skip(i as int), ks.skip(i as int)) == match_count(ms, ks),
            decreases n - i,
        {
            proof {
                assert(ms.skip(i as int)[0] == ms[i as int]);
                assert(ks.skip(i as int)[0] == ks[i as int]);
                assert(ms.skip(i as int).drop_first() =~= ms.skip(i + 1));
                assert(ks.skip(i as int).drop_first() =~= ks.skip(i + 1));
            }
            let k = inputs[i].kind();
            if self.info[i].type_id == k {
                acc += 1;
            }
            i += 1;
        }
        proof {
            if ms.len() <= ks.len() {
                assert(ms.skip(n as int) =~= Seq::<InfoModel>::empty());
            } else {
                assert(ks.skip(n as int) =~= Seq::<TypeKey>::empty());
            }
        }
        acc
    }
}

/// The index `best_match` picks among the first `n` shapes: the highest
/// score wins and, on a tie, the later shape.
pub open spec fn best_upto(gs: Seq<Seq<InfoModel>>, kinds: Seq<TypeKey>, n: int) -> int
    decreases n,
{
    if n <= 1 {
        0
    } else {
        let p = best_upto(gs, kinds, n - 1);
        if match_count(gs[n - 1], kinds) >= match_count(gs[p], kinds) {
            n - 1
        } else {
            p
        }
    }
}

pub proof fn lemma_best_upto_in_range(gs: Seq<Seq<InfoModel>>, kinds: Seq<TypeKey>, n: int)
    requires
        n >= 1,
    ensures
        0 <= best_upto(gs, kinds, n) < n,
    decreases n,
{
    if n > 1 {
        lemma_best_upto_in_range(gs, kinds, n - 1);
    }
}

/// All legal shapes a node accepts, in declaration order.
#[derive(Debug, Clone, PartialEq)]
pub struct PossibleInputs {
    pub groups: Vec<InputGroup>,
}

impl PossibleInputs {
    pub open spec fn models(self) -> Seq<Seq<InfoModel>> {
        self.groups@.map_values(|g: InputGroup| g.models())
    }

    pub fn new(groups: Vec<InputGroup>) -> (r: Self)
        ensures
            r.groups == groups,
    {
        PossibleInputs { groups }
    }

    /// The declared shape most similar to an actual input run: the shape
    /// with the highest position-by-position type-match score; on a tie
    /// the later shape wins.  `None` exactly when no shape is declared.
    pub fn best_match<'a>(&'a self, inputs: &Vec<DynValue>) -> (r: Option<&'a InputGroup>)
        ensures
            r is None <==> self.groups@.len() == 0,
            r matches Some(g) ==> *g == self.groups@[best_upto(
                self.models(),
                kinds_of(inputs@),
                self.groups@.len() as int,
            )],
    {
        let ghost gs = self.models();
        let ghost ks = kinds_of(inputs@);
        if self.groups.len() == 0 {
            return None;
        }
        let mut best: usize = 0;
        let mut best_score: usize = self.groups[0].score(inputs);
        let mut i: usize = 1;
        while i < self.groups.len()
            invariant
                gs == self.models(),
                ks == kinds_of(inputs@),
                gs.len() == self.groups@.len(),
                1 <= i <= gs.len(),
                best == best_upto(gs, ks, i as int),
                0 <= best < i,
                best_score == match_count(gs[best as int], ks),
            decreases self.groups@.len() - i,
        {
            let s = self.groups[i].score(inputs);
            if s >= best_score {
                best = i;
                best_score = s;
            }
            i += 1;
        }
        Some(&self.groups[best])
    }
}

/// Every combination beginning with `x` and continuing with one of
/// `tails`.
pub open spec fn prefix_all(x: TypeKey, tails: Seq<Seq<TypeKey>>) -> Seq<Seq<TypeKey>> {
    tails.map_values(|t: Seq<TypeKey>| seq![x] + t)
}

/// The combinations drawing their first element from `xs`, in order, and
/// their continuation from `tails`.
pub open spec fn flat_prefix(xs: Seq<TypeKey>, tails: Seq<Seq<TypeKey>>) -> Seq<Seq<TypeKey>>
    decreases xs.len(),
{
    if xs.len() == 0 {
        Seq::empty()
    } else {
        prefix_all(xs[0], tails) + flat_prefix(xs.drop_first(), tails)
    }
}

/// The cartesian product of the lists, combinations ordered with the
/// rightmost list advancing fastest.
pub open spec fn cart(lists: Seq<Seq<TypeKey>>) -> Seq<Seq<TypeKey>>
    decreases lists.len(),
{
    if lists.len() == 0 {
        seq![Seq::<TypeKey>::empty()]
    } else {
        flat_prefix(lists[0], cart(lists.drop_first()))
    }
}

/// The product of the lengths of the lists.
pub open spec fn prod_lens(lists: Seq<Seq<TypeKey>>) -> int
    decreases lists.len(),
{
    if lists.len() == 0 {
        1
    } else {
        lists[0].len() * prod_lens(lists.drop_first())
    }
}

pub proof fn lemma_flat_prefix_count(xs: Seq<TypeKey>, tails: Seq<Seq<TypeKey>>, width: int)
    requires
        forall|i: int| 0 <= i < tails.len() ==> #[trigger] tails[i].len() == width,
    ensures
        flat_prefix(xs, tails).len() == xs.len() * tails.len(),
        forall|i: int|
            0 <= i < flat_prefix(xs, tails).len() ==> #[trigger] flat_prefix(xs, tails)[i].len()
                == width + 1,
    decreases xs.len(),
{
    if xs.len() > 0 {
        lemma_flat_prefix_count(xs.drop_first(), tails, width);
        let a = xs.len() as int;
        let t = tails.len() as int;
        assert(a * t == t + (a - 1) * t) by (nonlinear_arith)
            requires
                a >= 1,
        ;
        assert(xs.drop_first().len() == a - 1);
    }
}

/// Cartesian completeness: the product of `k` lists has exactly the
/// product of their lengths as its number of combinations, and every
/// combination has exactly one entry per list.
pub proof fn lemma_cart_count(lists: Seq<Seq<TypeKey>>)
    ensures
        cart(lists).len() == prod_lens(lists),
        forall|i: int|
            0 <= i < cart(lists).len() ==> #[trigger] cart(lists)[i].len() == lists.len(),
    decreases lists.len(),
{
    if lists.len() > 0 {
        lemma_cart_count(lists.drop_first());
        lemma_flat_prefix_count(lists[0], cart(lists.drop_first()), lists.drop_first().len() as int);
    }
}

/// The views of a list of key vectors.
pub open spec fn key_views(lists: Seq<Vec<TypeKey>>) -> Seq<Seq<TypeKey>> {
    lists.map_values(|v: Vec<TypeKey>| v@)
}

/// The views of a list of string slices.
pub open spec fn str_views(names: Seq<&str>) -> Seq<Seq<char>> {
    names.map_values(|s: &str| s@)
}

/// Relies on itertools' multi-cartesian-product adaptor: combinations are
/// emitted with the rightmost list advancing fastest; an empty collection
/// of lists yields the single empty combination; a collection containing
/// an empty list yields no combination.
#[verifier::external_body]
pub(crate) fn cartesian_keys(lists: &Vec<Vec<TypeKey>>) -> (r: Vec<Vec<TypeKey>>)
    ensures
        key_views(r@) == cart(key_views(lists@)),
{
    lists.iter().map(|l| l.iter().copied()).multi_cartesian_product().collect()
}

/// The parameter positions of one combination, annotated with the
/// declared names, labels and optionality.
pub open spec fn combo_models(
    names: Seq<Seq<char>>,
    tys: Seq<Seq<char>>,
    opts: Seq<bool>,
    row: Seq<TypeKey>,
) -> Seq<InfoModel> {
    Seq::new(
        row.len(),
        |j: int|
            InfoModel { name: names[j], ty_name: tys[j], type_id: row[j], optional: opts[j] },
    )
}

/// Build the shape catalogue for one parameter list: the cartesian
/// product, across positions, of each position's possible runtime types,
/// annotated per position.
pub(crate) fn groups_from(
    names: &Vec<&'static str>,
    ty_names: &Vec<&'static str>,
    key_lists: &Vec<Vec<TypeKey>>,
    opts: &Vec<bool>,
) -> (r: Vec<InputGroup>)
    requires
        ty_names@.len() == key_lists@.len(),
        opts@.len() == key_lists@.len(),
        names@.len() >= key_lists@.len(),
    ensures
        r@.len() == cart(key_views(key_lists@)).len(),
        forall|i: int|
            0 <= i < r@.len() ==> #[trigger] r@[i].models() == combo_models(
                str_views(names@),
                str_views(ty_names@),
                opts@,
                cart(key_views(key_lists@))[i],
            ),
{
    proof {
        lemma_cart_count(key_views(key_lists@));
    }
    let combos = cartesian_keys(key_lists);
    let ghost rows = cart(key_views(key_lists@));
    let mut r: Vec<InputGroup> = Vec::new();
    let mut i: usize = 0;
    while i < combos.len()
        invariant
            key_views(combos@) == rows,
            rows == cart(key_views(key_lists@)),
            combos@.len() == rows.len(),
            forall|x: int| 0 <= x < rows.len() ==> #[trigger] rows[x].len() == key_lists@.len(),
            ty_names@.len() == key_lists@.len(),
            opts@.len() == key_lists@.len(),
            names@.len() >= key_lists@.len(),
            i <= combos@.len(),
            r@.len() == i,
            forall|x: int|
                0 <= x < i ==> #[trigger] r@[x].models() == combo_models(
                    str_views(names@),
                    str_views(ty_names@),
                    opts@,
                    rows[x],
                ),
        decreases combos@.len() - i,
    {
        let ghost row = rows[i as int];
        let combo = &combos[i];
        proof {
            assert(combo@ == rows[i as int]);
        }
        let mut info: Vec<InputInfo> = Vec::new();
        let mut j: usize = 0;
        while j < combo.len()
            invariant
                combo@ == row,
                row.len() == key_lists@.len(),
                ty_names@.len() == key_lists@.len(),
                opts@.len() == key_lists@.len(),
                names@.len() >= key_lists@.len(),
                j <= row.len(),
                info@.len() == j,
                forall|y: int|
                    0 <= y < j ==> #[trigger] info@[y].model() == (InfoModel {
                        name: names@[y]@,
                        ty_name: ty_names@[y]@,
                        type_id: row[y],
                        optional: opts@[y],
                    }),
            decreases row.len() - j,
        {
            let name = names[j];
            let ty_name = ty_names[j];
            info.push(
                InputInfo {
                    name: name.to_owned(),
                    ty_name: ty_name.to_owned(),
                    type_id: combo[j],
                    optional: opts[j],
                },
            );
            j += 1;
        }
        let group = InputGroup { info };
        proof {
            assert(group.models() =~= combo_models(
                str_views(names@),
                str_views(ty_names@),
                opts@,
                row,
            ));
        }
        r.push(group);
        i += 1;
    }
    r
}

} // verus!
