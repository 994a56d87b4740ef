use vstd::prelude::*;

use crate::errors::{ErrorType, ErrorWrapper};
use crate::items::{Item, ItemForm, ItemType, ItemView, MaterialType};
use crate::tile::{Colour, Symbol};

verus! {

/// What a container is: a wrapped single item, an object that holds things
/// (a bag, a chest), or an area of the map (a floor).
#[derive(Clone, Copy, Debug, PartialEq, Eq, Structural)]
pub enum ContainerType {
    ITEM,
    OBJECT,
    AREA,
}

/// The display name of a container type.
pub open spec fn container_type_name(t: ContainerType) -> Seq<char> {
    match t {
        ContainerType::ITEM => "ITEM"@,
        ContainerType::OBJECT => "OBJECT"@,
        ContainerType::AREA => "AREA"@,
    }
}

impl ContainerType {
    pub fn name(&self) -> (s: String)
        ensures
            s@ == container_type_name(*self),
    {
        proof {
            reveal_strlit("ITEM");
            reveal_strlit("OBJECT");
            reveal_strlit("AREA");
        }
        match self {
            ContainerType::ITEM => String::from_str("ITEM"),
            ContainerType::OBJECT => String::from_str("OBJECT"),
            ContainerType::AREA => String::from_str("AREA"),
        }
    }
}

/// A node of the container tree: the item that stands for it, its type, the
/// weight it can take, and the containers directly inside it (a plain item is
/// held wrapped in an `ITEM` container).
#[derive(Debug)]
pub struct Container {
    item: Item,
    container_type: ContainerType,
    weight_limit: i32,
    contents: Vec<Container>,
}

/// The first container with the given identifier in a pre-order walk of the
/// given containers and everything inside them.
pub closed spec fn find_in(cs: Seq<Container>, id: u128) -> Option<Container>
    decreases cs,
{
    if cs.len() == 0 {
        None
    } else {
        let first = cs[0];
        if first.item@.id == id {
            Some(first)
        } else {
            proof {
                assert(decreases_to!(cs => cs[0]));
                assert(decreases_to!(cs[0] => cs[0].contents));
                assert(decreases_to!(cs[0].contents => cs[0].contents@));
            }
            match find_in(first.contents@, id) {
                Some(c) => Some(c),
                None => find_in(cs.drop_first(), id),
            }
        }
    }
}

/// The number of containers among the given ones and everything inside them.
pub closed spec fn count_all(cs: Seq<Container>) -> nat
    decreases cs,
{
    if cs.len() == 0 {
        0
    } else {
        proof {
            assert(decreases_to!(cs => cs[0]));
            assert(decreases_to!(cs[0] => cs[0].contents));
            assert(decreases_to!(cs[0].contents => cs[0].contents@));
        }
        1 + count_all(cs[0].contents@) + count_all(cs.drop_first())
    }
}

/// The first container with the given identifier strictly inside `c`.
pub open spec fn find_within(c: Container, id: u128) -> Option<Container> {
    find_in(c.inside(), id)
}

impl Container {
    /// The item that stands for this container.
    pub closed spec fn self_item(&self) -> Item {
        self.item
    }

    pub closed spec fn kind(&self) -> ContainerType {
        self.container_type
    }

    pub closed spec fn limit(&self) -> i32 {
        self.weight_limit
    }

    /// The containers directly inside this one.
    pub closed spec fn inside(&self) -> Seq<Container> {
        self.contents@
    }

    /// The identifier of the item that stands for this container.
    pub open spec fn id(&self) -> u128 {
        self.self_item()@.id
    }
}


/// Whether two containers hold the same item, type and limit, and, one for
/// one, the same containers inside.
pub closed spec fn same_container(a: Container, b: Container) -> bool
    decreases a,
{
    &&& a.item == b.item
    &&& a.container_type == b.container_type
    &&& a.weight_limit == b.weight_limit
    &&& a.contents@.len() == b.contents@.len()
    &&& forall|i: int| 0 <= i < a.contents@.len() ==> same_container(#[trigger] a.contents@[i], b.contents@[i])
}

/// What sameness tells of two containers.
pub proof fn lemma_same_container(a: Container, b: Container)
    requires
        same_container(a, b),
    ensures
        a.self_item() == b.self_item(),
        a.id() == b.id(),
        a.kind() == b.kind(),
        a.limit() == b.limit(),
        a.inside().len() == b.inside().len(),
        forall|i: int| 0 <= i < a.inside().len() ==> same_container(#[trigger] a.inside()[i], b.inside()[i]),
{
}

/// The weight, in grams, of the given containers: each one's item and,
/// recursively, everything inside it.
pub closed spec fn contents_weight(cs: Seq<Container>) -> int
    decreases cs,
{
    if cs.len() == 0 {
        0
    } else {
        proof {
            assert(decreases_to!(cs => cs[0]));
            assert(decreases_to!(cs[0] => cs[0].contents));
            assert(decreases_to!(cs[0].contents => cs[0].contents@));
        }
        cs[0].item@.weight + contents_weight(cs[0].contents@) + contents_weight(cs.drop_first())
    }
}

/// What a container weighs, in grams: its item and everything inside it.
pub open spec fn weight_of(c: Container) -> int {
    c.self_item()@.weight + contents_weight(c.inside())
}

/// Whether `c` fits in `target`: the weight inside `target` and the weight
/// of `c` together stay within `target`'s limit (in kilograms, the weights
/// being in grams).
pub open spec fn fits_in(target: Container, c: Container) -> bool {
    contents_weight(target.inside()) + weight_of(c) <= target.limit() * 1000
}

pub proof fn lemma_contents_weight(cs: Seq<Container>)
    ensures
        contents_weight(cs) >= 0,
        cs.len() > 0 ==> contents_weight(cs) == weight_of(cs[0]) + contents_weight(cs.drop_first()),
        forall|c: Container| #[trigger] contents_weight(cs.push(c)) == contents_weight(cs) + weight_of(c),
    decreases cs.len(),
{
    if cs.len() > 0 {
        lemma_contents_weight(cs.drop_first());
        assert(decreases_to!(cs => cs[0]));
        assert(decreases_to!(cs[0] => cs[0].contents));
        assert(decreases_to!(cs[0].contents => cs[0].contents@));
        lemma_contents_weight_nonneg(cs[0].contents@);
        assert forall|c: Container| #[trigger] contents_weight(cs.push(c)) == contents_weight(cs) + weight_of(c) by {
            let p = cs.push(c);
            assert(p[0] == cs[0]);
            assert(p.drop_first() =~= cs.drop_first().push(c));
            assert(contents_weight(cs.drop_first().push(c)) == contents_weight(cs.drop_first()) + weight_of(c));
        }
    } else {
        assert forall|c: Container| #[trigger] contents_weight(cs.push(c)) == contents_weight(cs) + weight_of(c) by {
            let p = cs.push(c);
            assert(p[0] == c);
            assert(p.drop_first() =~= Seq::<Container>::empty());
            assert(contents_weight(Seq::<Container>::empty()) == 0);
            assert(cs =~= Seq::<Container>::empty());
            assert(contents_weight(p) == p[0].item@.weight + contents_weight(p[0].contents@) + contents_weight(p.drop_first()));
            lemma_contents_weight_nonneg(c.contents@);
        }
    }
}

proof fn lemma_contents_weight_nonneg(cs: Seq<Container>)
    ensures
        contents_weight(cs) >= 0,
    decreases cs,
{
    if cs.len() > 0 {
        assert(decreases_to!(cs => cs[0]));
        assert(decreases_to!(cs[0] => cs[0].contents));
        assert(decreases_to!(cs[0].contents => cs[0].contents@));
        lemma_contents_weight_nonneg(cs[0].contents@);
        lemma_contents_weight_nonneg(cs.drop_first());
    }
}

/// Containers that are the same weigh the same.
pub proof fn lemma_same_weight(a: Container, b: Container)
    requires
        same_container(a, b),
    ensures
        weight_of(a) == weight_of(b),
    decreases a,
{
    assert(decreases_to!(a => a.contents));
    assert(decreases_to!(a.contents => a.contents@));
    lemma_same_contents_weight(a.contents@, b.contents@);
}

/// Lists of containers that are the same one for one weigh the same.
pub proof fn lemma_same_contents_weight(xs: Seq<Container>, ys: Seq<Container>)
    requires
        xs.len() == ys.len(),
        forall|i: int| 0 <= i < xs.len() ==> same_container(#[trigger] xs[i], ys[i]),
    ensures
        contents_weight(xs) == contents_weight(ys),
    decreases xs,
{
    if xs.len() > 0 {
        assert(decreases_to!(xs => xs[0]));
        lemma_same_weight(xs[0], ys[0]);
        assert(xs.drop_first().len() < xs.len());
        assert forall|i: int| 0 <= i < xs.drop_first().len() implies same_container(#[trigger] xs.drop_first()[i], ys.drop_first()[i]) by {
            assert(same_container(xs[i + 1], ys[i + 1]));
        }
        assert(decreases_to!(xs => xs.drop_first()));
        lemma_same_contents_weight(xs.drop_first(), ys.drop_first());
        lemma_contents_weight(xs);
        lemma_contents_weight(ys);
    }
}

/// The weight of two lists together is the sum of their weights.
pub proof fn lemma_concat_weight(xs: Seq<Container>, ys: Seq<Container>)
    ensures
        contents_weight(xs + ys) == contents_weight(xs) + contents_weight(ys),
    decreases ys.len(),
{
    if ys.len() == 0 {
        assert(xs + ys =~= xs);
        assert(contents_weight(ys) == 0);
    } else {
        lemma_concat_weight(xs, ys.drop_last());
        assert(xs + ys =~= (xs + ys.drop_last()).push(ys.last()));
        assert(ys =~= ys.drop_last().push(ys.last()));
        lemma_contents_weight(xs + ys.drop_last());
        lemma_contents_weight(ys.drop_last());
    }
}

/// The weight of the containers, in grams, or `u64::MAX` when it is more.
fn weight_vec(cs: &Vec<Container>) -> (w: u64)
    ensures
        w == (if contents_weight(cs@) <= u64::MAX { contents_weight(cs@) } else { u64::MAX as int }),
    decreases cs@,
{
    let mut total: u64 = 0;
    let mut i: usize = cs.len();
    assert(cs@.skip(cs@.len() as int) =~= Seq::<Container>::empty());
    while i > 0
        invariant
            i <= cs@.len(),
            total == (if contents_weight(cs@.skip(i as int)) <= u64::MAX { contents_weight(cs@.skip(i as int)) } else { u64::MAX as int }),
        decreases i,
    {
        let k = i - 1;
        let ghost rest = cs@.skip(k as int);
        assert(rest[0] == cs@[k as int]);
        assert(rest.drop_first() =~= cs@.skip(i as int));
        proof {
            assert(decreases_to!(cs@ => cs@[k as int]));
            assert(decreases_to!(cs@[k as int] => cs@[k as int].contents));
            assert(decreases_to!(cs@[k as int].contents => cs@[k as int].contents@));
            lemma_contents_weight_nonneg(cs@[k as int].contents@);
            lemma_contents_weight_nonneg(cs@.skip(i as int));
        }
        let inner = weight_vec(&cs[k].contents);
        let own = cs[k].item.get_weight() as u64;
        total = own.saturating_add(inner).saturating_add(total);
        i = k;
    }
    assert(cs@.skip(0) =~= cs@);
    total
}

/// A container is the same as itself.
pub proof fn lemma_same_container_refl(a: Container)
    ensures
        same_container(a, a),
    decreases a,
{
    assert forall|i: int| 0 <= i < a.contents@.len() implies same_container(#[trigger] a.contents@[i], a.contents@[i]) by {
        assert(decreases_to!(a => a.contents));
        assert(decreases_to!(a.contents => a.contents@[i]));
        lemma_same_container_refl(a.contents@[i]);
    }
}

/// Sameness of containers carries over: the same as the same is the same.
pub proof fn lemma_same_container_trans(a: Container, b: Container, c: Container)
    requires
        same_container(a, b),
        same_container(b, c),
    ensures
        same_container(a, c),
    decreases a,
{
    assert forall|i: int| 0 <= i < a.contents@.len() implies same_container(#[trigger] a.contents@[i], c.contents@[i]) by {
        assert(decreases_to!(a => a.contents));
        assert(decreases_to!(a.contents => a.contents@[i]));
        lemma_same_container_trans(a.contents@[i], b.contents@[i], c.contents@[i]);
    }
}

/// Whether one of the containers stands for the item with identifier `id`.
pub open spec fn has_id(cs: Seq<Container>, id: u128) -> bool {
    exists|i: int| 0 <= i < cs.len() && (#[trigger] cs[i]).id() == id
}

/// The containers of `cs`, in order, but those standing for the same item as
/// one of `removes`.
pub open spec fn without_ids(cs: Seq<Container>, removes: Seq<Container>) -> Seq<Container>
    decreases cs.len(),
{
    if cs.len() == 0 {
        cs
    } else {
        let rest = without_ids(cs.drop_last(), removes);
        if has_id(removes, cs.last().id()) { rest } else { rest.push(cs.last()) }
    }
}

/// The index of the first of the containers that stands for the item with
/// identifier `id`; the number of containers when none does.
pub open spec fn first_id_index(cs: Seq<Container>, id: u128) -> int
    decreases cs.len(),
{
    if cs.len() == 0 {
        0
    } else if cs[0].id() == id {
        0
    } else {
        1 + first_id_index(cs.drop_first(), id)
    }
}

pub proof fn lemma_first_id_index(cs: Seq<Container>, id: u128)
    ensures
        0 <= first_id_index(cs, id) <= cs.len(),
        first_id_index(cs, id) < cs.len() ==> cs[first_id_index(cs, id)].id() == id,
        forall|j: int| 0 <= j < first_id_index(cs, id) ==> (#[trigger] cs[j]).id() != id,
        has_id(cs, id) == (first_id_index(cs, id) < cs.len()),
    decreases cs.len(),
{
    if cs.len() > 0 && cs[0].id() != id {
        lemma_first_id_index(cs.drop_first(), id);
        assert forall|j: int| 0 <= j < first_id_index(cs, id) implies (#[trigger] cs[j]).id() != id by {
            if j > 0 {
                assert(cs[j] == cs.drop_first()[j - 1]);
            }
        }
        if has_id(cs, id) {
            let i = choose|i: int| 0 <= i < cs.len() && (#[trigger] cs[i]).id() == id;
            assert(cs.drop_first()[i - 1].id() == id);
        }
        if first_id_index(cs, id) < cs.len() {
            assert(cs.drop_first()[first_id_index(cs, id) - 1] == cs[first_id_index(cs, id)]);
        }
    }
}

impl Clone for Container {
    /// A copy of the container and, recursively, of everything inside it.
    fn clone(&self) -> (r: Self)
        ensures
            same_container(r, *self),
        decreases self,
    {
        let mut contents: Vec<Container> = Vec::new();
        let mut i: usize = 0;
        while i < self.contents.len()
            invariant
                i <= self.contents@.len(),
                contents@.len() == i,
                forall|k: int| 0 <= k < i ==> same_container(#[trigger] contents@[k], self.contents@[k]),
            decreases self.contents@.len() - i,
        {
            proof {
                assert(decreases_to!(self => self.contents));
                assert(decreases_to!(self.contents => self.contents@[i as int]));
            }
            contents.push(self.contents[i].clone());
            i += 1;
        }
        Container { item: self.item.clone(), container_type: self.container_type, weight_limit: self.weight_limit, contents }
    }
}

/// A reference to a found container, read as the container itself.
pub open spec fn found(r: Option<&Container>) -> Option<Container> {
    match r {
        Some(c) => Some(*c),
        None => None,
    }
}

fn count_vec(cs: &Vec<Container>) -> (n: usize)
    requires
        count_all(cs@) <= usize::MAX,
    ensures
        n == count_all(cs@),
    decreases cs@,
{
    let mut total: usize = 0;
    let mut i: usize = cs.len();
    assert(cs@.skip(cs@.len() as int) =~= Seq::<Container>::empty());
    proof {
        lemma_count_skip_bound(cs@, 0);
        assert(cs@.skip(0) =~= cs@);
    }
    while i > 0
        invariant
            i <= cs@.len(),
            count_all(cs@) <= usize::MAX,
            total == count_all(cs@.skip(i as int)),
            forall|k: int| 0 <= k <= cs@.len() ==> #[trigger] count_all(cs@.skip(k)) <= count_all(cs@),
        decreases i,
    {
        let k = i - 1;
        let ghost rest = cs@.skip(k as int);
        assert(rest[0] == cs@[k as int]);
        assert(rest.drop_first() =~= cs@.skip(i as int));
        assert(count_all(rest) == 1 + count_all(cs@[k as int].contents@) + count_all(cs@.skip(i as int)));
        proof {
            assert(decreases_to!(cs@ => cs@[k as int]));
            assert(decreases_to!(cs@[k as int] => cs@[k as int].contents));
            assert(decreases_to!(cs@[k as int].contents => cs@[k as int].contents@));
        }
        let inner = count_vec(&cs[k].contents);
        total = total + 1 + inner;
        i = k;
    }
    assert(cs@.skip(0) =~= cs@);
    total
}

/// Counting a suffix of the containers counts no more than counting all of them.
proof fn lemma_count_skip_bound(cs: Seq<Container>, k: int)
    requires
        0 <= k <= cs.len(),
    ensures
        forall|j: int| k <= j <= cs.len() ==> #[trigger] count_all(cs.skip(j)) <= count_all(cs.skip(k)),
    decreases cs.len() - k,
{
    if k < cs.len() {
        lemma_count_skip_bound(cs, k + 1);
        let rest = cs.skip(k);
        assert(rest.drop_first() =~= cs.skip(k + 1));
    }
}

/// Searches the given containers, and everything inside them, in pre-order
/// for the container whose item carries the identifier `id`.
fn find_in_vec<'a>(cs: &'a Vec<Container>, id: u128) -> (r: Option<&'a Container>)
    ensures
        found(r) == find_in(cs@, id),
    decreases cs@,
{
    let mut i: usize = 0;
    assert(cs@.skip(0) =~= cs@);
    while i < cs.len()
        invariant
            i <= cs@.len(),
            find_in(cs@, id) == find_in(cs@.skip(i as int), id),
        decreases cs@.len() - i,
    {
        let ghost rest = cs@.skip(i as int);
        assert(rest[0] == cs@[i as int]);
        assert(rest.drop_first() =~= cs@.skip(i + 1));
        let c = &cs[i];
        if c.item.id_equals_value(id) {
            return Some(c);
        }
        proof {
            assert(decreases_to!(cs@ => cs@[i as int]));
            assert(decreases_to!(cs@[i as int] => cs@[i as int].contents));
            assert(decreases_to!(cs@[i as int].contents => cs@[i as int].contents@));
        }
        let inner = find_in_vec(&c.contents, id);
        if inner.is_some() {
            return inner;
        }
        i += 1;
    }
    assert(cs@.skip(i as int).len() == 0);
    None
}

/// Whether `news` is `olds` with the first container found for `id` (in a
/// pre-order walk of `olds` and everything inside them) replaced by `sub`.
pub closed spec fn replaced_in(olds: Seq<Container>, news: Seq<Container>, id: u128, sub: Container) -> bool
    decreases olds,
{
    if olds.len() == 0 {
        news.len() == 0
    } else {
        let first = olds[0];
        &&& news.len() == olds.len()
        &&& if first.item@.id == id {
            news[0] == sub && news.drop_first() == olds.drop_first()
        } else if find_in(first.contents@, id) is Some {
            proof {
                assert(decreases_to!(olds => olds[0]));
            }
            replaced_within(first, news[0], id, sub) && news.drop_first() == olds.drop_first()
        } else {
            news[0] == first && replaced_in(olds.drop_first(), news.drop_first(), id, sub)
        }
    }
}

/// Whether `new` is `old` with the first container found inside it for `id`
/// replaced by `sub`.
pub closed spec fn replaced_within(old: Container, new: Container, id: u128, sub: Container) -> bool
    decreases old,
{
    proof {
        assert(decreases_to!(old => old.contents));
        assert(decreases_to!(old.contents => old.contents@));
    }
    &&& new.item == old.item
    &&& new.container_type == old.container_type
    &&& new.weight_limit == old.weight_limit
    &&& replaced_in(old.contents@, new.contents@, id, sub)
}

/// Changing, in place, the container found for `id` into one with the same
/// identifier and the same contents keeps what a search finds.
pub proof fn lemma_replaced_keeps_finds(old: Container, new: Container, id: u128, sub: Container, id2: u128)
    requires
        replaced_within(old, new, id, sub),
        find_within(old, id) is Some,
        sub.id() == find_within(old, id).unwrap().id(),
        sub.inside() == find_within(old, id).unwrap().inside(),
    ensures
        (find_within(new, id2) is Some) == (find_within(old, id2) is Some),
{
    lemma_replaced_in_keeps(old.contents@, new.contents@, id, sub, id2);
}

proof fn lemma_replaced_in_keeps(olds: Seq<Container>, news: Seq<Container>, id: u128, sub: Container, id2: u128)
    requires
        replaced_in(olds, news, id, sub),
        find_in(olds, id) is Some,
        sub.id() == find_in(olds, id).unwrap().id(),
        sub.inside() == find_in(olds, id).unwrap().inside(),
    ensures
        (find_in(news, id2) is Some) == (find_in(olds, id2) is Some),
    decreases olds,
{
    if olds.len() > 0 {
        let first = olds[0];
        assert(decreases_to!(olds => olds[0]));
        assert(decreases_to!(olds[0] => olds[0].contents));
        assert(decreases_to!(olds[0].contents => olds[0].contents@));
        if first.item@.id == id {
            assert(news.drop_first() == olds.drop_first());
            assert(news[0] == sub);
        } else if find_in(first.contents@, id) is Some {
            let n0 = news[0];
            assert(replaced_within(first, n0, id, sub));
            lemma_replaced_in_keeps(first.contents@, n0.contents@, id, sub, id2);
            assert(news.drop_first() == olds.drop_first());
        } else {
            assert(news[0] == first);
            lemma_replaced_in_keeps(olds.drop_first(), news.drop_first(), id, sub, id2);
        }
    }
}

/// Whether the container is, or holds inside it, the one for `id`.
pub open spec fn holds(c: Container, id: u128) -> bool {
    c.id() == id || find_within(c, id) is Some
}

/// The search finds the first holder, and replacing at that holder replaces
/// what the search found.
proof fn lemma_first_holder(olds: Seq<Container>, id: u128, k: int, x: Container, sub: Container)
    requires
        0 <= k < olds.len(),
        holds(olds[k], id),
        forall|j: int| 0 <= j < k ==> !holds(#[trigger] olds[j], id),
    ensures
        find_in(olds, id) == (if olds[k].item@.id == id { Some(olds[k]) } else { find_in(olds[k].contents@, id) }),
        (if olds[k].item@.id == id { x == sub } else { replaced_within(olds[k], x, id, sub) })
            ==> replaced_in(olds, olds.update(k, x), id, sub),
    decreases k,
{
    let news = olds.update(k, x);
    if k == 0 {
        assert(news.drop_first() =~= olds.drop_first());
    } else {
        assert(!holds(olds[0], id));
        let rest = olds.drop_first();
        assert forall|j: int| 0 <= j < k - 1 implies !holds(#[trigger] rest[j], id) by {
            assert(rest[j] == olds[j + 1]);
        }
        lemma_first_holder(rest, id, k - 1, x, sub);
        assert(news.drop_first() =~= rest.update(k - 1, x));
    }
}

proof fn lemma_replaced_in_found(olds: Seq<Container>, news: Seq<Container>, id: u128, sub: Container)
    requires
        replaced_in(olds, news, id, sub),
        find_in(olds, id) is Some,
        sub.item@.id == id,
    ensures
        find_in(news, id) == Some(sub),
    decreases olds,
{
    assert(olds.len() > 0);
    let first = olds[0];
    assert(news.len() == olds.len());
    if first.item@.id == id {
        assert(news[0] == sub);
    } else if find_in(first.contents@, id) is Some {
        assert(decreases_to!(olds => olds[0]));
        assert(decreases_to!(olds[0] => olds[0].contents));
        assert(decreases_to!(olds[0].contents => olds[0].contents@));
        assert(replaced_within(first, news[0], id, sub));
        assert(replaced_in(first.contents@, news[0].contents@, id, sub));
        lemma_replaced_in_found(first.contents@, news[0].contents@, id, sub);
        assert(news[0].item == first.item);
    } else {
        assert(news[0] == first);
        lemma_replaced_in_found(olds.drop_first(), news.drop_first(), id, sub);
    }
}

/// What a search finds stands for the item searched for.
pub proof fn lemma_found_has_id(c: Container, id: u128)
    ensures
        find_within(c, id) matches Some(x) ==> x.id() == id,
{
    lemma_find_in_has_id(c.contents@, id);
}

proof fn lemma_find_in_has_id(cs: Seq<Container>, id: u128)
    ensures
        find_in(cs, id) matches Some(x) ==> x.id() == id,
    decreases cs,
{
    if cs.len() > 0 {
        assert(decreases_to!(cs => cs[0]));
        assert(decreases_to!(cs[0] => cs[0].contents));
        assert(decreases_to!(cs[0].contents => cs[0].contents@));
        lemma_find_in_has_id(cs[0].contents@, id);
        lemma_find_in_has_id(cs.drop_first(), id);
    }
}

/// Writing, through the reference `find_mut` gives, a container that stands
/// for the same item makes that container the one found afterwards.
pub proof fn lemma_write_then_find(old: Container, new: Container, id: u128, sub: Container)
    requires
        find_within(old, id) is Some,
        replaced_within(old, new, id, sub),
        sub.id() == id,
    ensures
        find_within(new, id) == Some(sub),
{
    lemma_replaced_in_found(old.contents@, new.contents@, id, sub);
}

/// The index of the first of the containers that is, or holds inside it, the
/// one for `id`.
fn holder_index(cs: &Vec<Container>, id: u128) -> (r: Option<usize>)
    ensures
        match r {
            Some(k) => k < cs@.len() && holds(cs@[k as int], id)
                && forall|j: int| 0 <= j < k ==> !holds(#[trigger] cs@[j], id),
            None => find_in(cs@, id) is None,
        },
{
    let mut i: usize = 0;
    assert(cs@.skip(0) =~= cs@);
    while i < cs.len()
        invariant
            i <= cs@.len(),
            find_in(cs@, id) == find_in(cs@.skip(i as int), id),
            forall|j: int| 0 <= j < i ==> !holds(#[trigger] cs@[j], id),
        decreases cs@.len() - i,
    {
        let ghost rest = cs@.skip(i as int);
        assert(rest[0] == cs@[i as int]);
        assert(rest.drop_first() =~= cs@.skip(i + 1));
        let c = &cs[i];
        if c.item.id_equals_value(id) {
            return Some(i);
        }
        if find_in_vec(&c.contents, id).is_some() {
            return Some(i);
        }
        i += 1;
    }
    assert(cs@.skip(i as int).len() == 0);
    None
}

/// Searches the given containers, and everything inside them, in pre-order
/// for the container whose item carries the identifier `id`, for changing it.
fn find_in_vec_mut<'a>(cs: &'a mut Vec<Container>, id: u128) -> (r: Option<&'a mut Container>)
    ensures
        match r {
            Some(c) => find_in(old(cs)@, id) == Some(*c) && replaced_in(old(cs)@, final(cs)@, id, *final(c)),
            None => find_in(old(cs)@, id) is None && *final(cs) == *old(cs),
        },
    decreases old(cs)@,
{
    match holder_index(cs, id) {
        None => None,
        Some(k) => {
            let ghost olds = cs@;
            proof {
                assert(decreases_to!(olds => olds[k as int]));
                assert(decreases_to!(olds[k as int] => olds[k as int].contents));
                assert(decreases_to!(olds[k as int].contents => olds[k as int].contents@));
            }
            let c = &mut cs[k];
            let ghost final_c = *final(c);
            if c.item.id_equals_value(id) {
                proof {
                    lemma_first_holder(olds, id, k as int, final_c, final_c);
                }
                Some(c)
            } else {
                match find_in_vec_mut(&mut c.contents, id) {
                    Some(inner) => {
                        proof {
                            lemma_first_holder(olds, id, k as int, final_c, *final(inner));
                        }
                        Some(inner)
                    },
                    None => {
                        proof {
                            assert(false);
                        }
                        None
                    },
                }
            }
        },
    }
}

impl Container {
    /// A container of the given type whose item is a container item built from
    /// the given details; it starts empty.
    pub fn new(
        id: u128,
        name: String,
        symbol: char,
        weight: u32,
        value: i32,
        container_type: ContainerType,
        weight_limit: i32,
    ) -> (c: Container)
        ensures
            c.self_item()@ == (ItemView {
                id,
                item_type: ItemType::CONTAINER,
                item_form: ItemForm::OTHER(name),
                material_type: MaterialType::UNKNOWN,
                name: name@,
                symbol: Symbol { character: symbol, colour: Colour::White },
                weight,
                value,
                equipment_slot: None,
            }),
            c.kind() == container_type,
            c.limit() == weight_limit,
            c.inside() == Seq::<Container>::empty(),
    {
        let item = Item::container_item(id, name, symbol, weight, value);
        Container { item, container_type, weight_limit, contents: Vec::new() }
    }

    /// Wraps a single item into an `ITEM` container that can take nothing.
    pub fn wrap(item: Item) -> (c: Container)
        ensures
            c.self_item() == item,
            c.kind() == ContainerType::ITEM,
            c.limit() == 0,
            c.inside() == Seq::<Container>::empty(),
    {
        Container { item, container_type: ContainerType::ITEM, weight_limit: 0, contents: Vec::new() }
    }

    pub fn get_self_item(&self) -> (item: &Item)
        ensures
            *item == self.self_item(),
    {
        &self.item
    }

    pub fn get_self_item_id(&self) -> (id: u128)
        ensures
            id == self.id(),
    {
        self.item.get_id()
    }

    /// Whether both containers stand for the same item.
    pub fn id_equals(&self, other: &Container) -> (r: bool)
        ensures
            r == (self.id() == other.id()),
    {
        self.item.id_equals(&other.item)
    }

    /// Whether this container's item carries the given identifier.
    pub fn id_equals_uuid(&self, id: u128) -> (r: bool)
        ensures
            r == (self.id() == id),
    {
        self.item.id_equals_value(id)
    }

    pub fn get_container_type(&self) -> (t: ContainerType)
        ensures
            t == self.kind(),
    {
        self.container_type
    }

    pub fn get_weight_limit(&self) -> (l: i32)
        ensures
            l == self.limit(),
    {
        self.weight_limit
    }

    pub fn get_contents(&self) -> (contents: &Vec<Container>)
        ensures
            contents@ == self.inside(),
    {
        &self.contents
    }

    /// The containers directly inside this one, for changing them.
    pub fn get_contents_mut(&mut self) -> (contents: &mut Vec<Container>)
        ensures
            contents@ == old(self).inside(),
            final(self).inside() == final(contents)@,
            final(self).self_item() == old(self).self_item(),
            final(self).kind() == old(self).kind(),
            final(self).limit() == old(self).limit(),
    {
        &mut self.contents
    }

    /// The number of containers directly inside this one.
    pub fn get_top_level_count(&self) -> (n: usize)
        ensures
            n == self.inside().len(),
    {
        self.contents.len()
    }

    /// The number of containers inside this one, at any depth.
    pub fn get_total_count(&self) -> (n: usize)
        requires
            count_all(self.inside()) <= usize::MAX,
        ensures
            n == count_all(self.inside()),
    {
        count_vec(&self.contents)
    }

    /// Places the given containers at the end of this one's contents.
    pub fn push(&mut self, containers: Vec<Container>)
        ensures
            final(self).self_item() == old(self).self_item(),
            final(self).kind() == old(self).kind(),
            final(self).limit() == old(self).limit(),
            final(self).inside() == old(self).inside() + containers@,
    {
        let mut containers = containers;
        self.contents.append(&mut containers);
    }

    /// The first container inside this one (at any depth, in pre-order) that
    /// stands for the same item as `item`.
    pub fn find(&self, item: &Item) -> (r: Option<&Container>)
        ensures
            found(r) == find_within(*self, item@.id),
    {
        find_in_vec(&self.contents, item.get_id())
    }

    /// The first container inside this one (at any depth, in pre-order) that
    /// stands for the same item as `item`, for changing it: what is written
    /// through the reference lands in that place of this container.
    pub fn find_mut(&mut self, item: &Item) -> (r: Option<&mut Container>)
        ensures
            match r {
                Some(c) => find_within(*old(self), item@.id) == Some(*c)
                    && replaced_within(*old(self), *final(self), item@.id, *final(c)),
                None => find_within(*old(self), item@.id) is None && *final(self) == *old(self),
            },
    {
        let id = item.get_id();
        let ghost before = *self;
        let r = find_in_vec_mut(&mut self.contents, id);
        proof {
            assert(self.item == before.item);
        }
        r
    }

    /// The weight of what this container holds, in grams, or `u64::MAX` when
    /// it is more.
    pub fn get_weight_total(&self) -> (w: u64)
        ensures
            w == (if contents_weight(self.inside()) <= u64::MAX { contents_weight(self.inside()) } else { u64::MAX as int }),
    {
        weight_vec(&self.contents)
    }

    /// Whether `container_item` fits in this container (see `fits_in`).
    pub fn can_fit_container_item(&self, container_item: &Container) -> (r: bool)
        ensures
            r == fits_in(*self, *container_item),
    {
        proof {
            lemma_contents_weight_nonneg(self.contents@);
            lemma_contents_weight_nonneg(container_item.contents@);
        }
        if self.weight_limit < 0 {
            return false;
        }
        let limit = (self.weight_limit as u64) * 1000;
        let inside = weight_vec(&self.contents);
        let item = (container_item.item.get_weight() as u64).saturating_add(weight_vec(&container_item.contents));
        inside.saturating_add(item) <= limit
    }

    /// Places `container_item` last inside this container when it fits;
    /// fails, leaving the container as it is, when it does not.
    pub fn add(&mut self, container_item: Container) -> (r: Result<(), ErrorWrapper>)
        ensures
            final(self).self_item() == old(self).self_item(),
            final(self).kind() == old(self).kind(),
            final(self).limit() == old(self).limit(),
            fits_in(*old(self), container_item) ==> r is Ok && final(self).inside() == old(self).inside().push(container_item),
            !fits_in(*old(self), container_item) ==> {
                &&& r matches Err(e) && e.wf() && e.error_type == ErrorType::INTERNAL
                    && e.internal_message.unwrap()@ == "Cannot fit the item into the container"@
                &&& *final(self) == *old(self)
            },
    {
        if self.can_fit_container_item(&container_item) {
            self.contents.push(container_item);
            Ok(())
        } else {
            proof {
                reveal_strlit("Cannot fit the item into the container");
            }
            Err(ErrorWrapper::new_internal(String::from_str("Cannot fit the item into the container")))
        }
    }

    /// The item that stands for this container, for changing it in place.
    pub fn get_self_item_mut(&mut self) -> (item: &mut Item)
        ensures
            *item == old(self).self_item(),
            final(self).self_item() == *final(item),
            final(self).kind() == old(self).kind(),
            final(self).limit() == old(self).limit(),
            final(self).inside() == old(self).inside(),
    {
        &mut self.item
    }

    /// The index of the first container directly inside this one that
    /// stands for the same item as `item`.
    pub fn item_position(&self, item: &Item) -> (r: Option<usize>)
        ensures
            match r {
                Some(k) => has_id(self.inside(), item@.id) && k == first_id_index(self.inside(), item@.id),
                None => !has_id(self.inside(), item@.id),
            },
    {
        proof {
            lemma_first_id_index(self.contents@, item@.id);
        }
        let id = item.get_id();
        let mut i: usize = 0;
        while i < self.contents.len()
            invariant
                i <= self.contents@.len(),
                i <= first_id_index(self.contents@, id),
                0 <= first_id_index(self.contents@, id) <= self.contents@.len(),
                first_id_index(self.contents@, id) < self.contents@.len()
                    ==> self.contents@[first_id_index(self.contents@, id)].id() == id,
                forall|j: int| 0 <= j < first_id_index(self.contents@, id) ==> (#[trigger] self.contents@[j]).id() != id,
                has_id(self.contents@, id) == (first_id_index(self.contents@, id) < self.contents@.len()),
                id == item@.id,
            decreases self.contents@.len() - i,
        {
            if self.contents[i].item.id_equals_value(id) {
                return Some(i);
            }
            i += 1;
        }
        None
    }

    /// Takes out of the containers directly inside this one those that stand
    /// for the same item as one of `to_remove`, keeping the order of the rest.
    pub fn remove_matching_items(&mut self, to_remove: Vec<Container>)
        ensures
            final(self).self_item() == old(self).self_item(),
            final(self).kind() == old(self).kind(),
            final(self).limit() == old(self).limit(),
            final(self).inside() == without_ids(old(self).inside(), to_remove@),
    {
        let mut rest: Vec<Container> = Vec::new();
        std::mem::swap(&mut rest, &mut self.contents);
        let ghost all = rest@;
        let total = rest.len();
        let mut taken: usize = 0;
        while taken < total
            invariant
                taken + rest@.len() == all.len(),
                total == all.len(),
                rest@ == all.skip(taken as int),
                self.contents@ == without_ids(all.take(taken as int), to_remove@),
                self.item == old(self).item,
                self.container_type == old(self).container_type,
                self.weight_limit == old(self).weight_limit,
                all == old(self).contents@,
            decreases rest@.len(),
        {
            let c = rest.remove(0);
            proof {
                assert(all.take(taken + 1).drop_last() =~= all.take(taken as int));
                assert(all.take(taken + 1).last() == c);
            }
            let mut matched = false;
            let mut k: usize = 0;
            while k < to_remove.len()
                invariant
                    k <= to_remove@.len(),
                    matched == exists|j: int| 0 <= j < k && (#[trigger] to_remove@[j]).id() == c.id(),
                decreases to_remove@.len() - k,
            {
                if to_remove[k].item.id_equals_value(c.item.get_id()) {
                    matched = true;
                }
                k += 1;
            }
            if !matched {
                self.contents.push(c);
            }
            taken += 1;
            proof {
                assert(rest@ =~= all.skip(taken as int));
            }
        }
        proof {
            assert(all.take(taken as int) =~= all);
        }
    }

    /// Places the given containers, in order, directly inside this one from
    /// index `index` on.
    pub fn insert(&mut self, index: usize, containers: Vec<Container>)
        requires
            index <= old(self).inside().len(),
        ensures
            final(self).self_item() == old(self).self_item(),
            final(self).kind() == old(self).kind(),
            final(self).limit() == old(self).limit(),
            final(self).inside() == old(self).inside().take(index as int) + containers@ + old(self).inside().skip(index as int),
    {
        let mut containers = containers;
        let ghost all = containers@;
        let total = containers.len();
        let mut i: usize = 0;
        while i < total
            invariant
                i + containers@.len() == all.len(),
                total == all.len(),
                index + i <= self.contents@.len(),
                containers@ == all.skip(i as int),
                index <= old(self).contents@.len(),
                self.contents@ == old(self).contents@.take(index as int) + all.take(i as int) + old(self).contents@.skip(index as int),
                self.item == old(self).item,
                self.container_type == old(self).container_type,
                self.weight_limit == old(self).weight_limit,
            decreases containers@.len(),
        {
            let c = containers.remove(0);
            let len = self.contents.len();
            proof {
                assert(index + i <= len);
            }
            self.contents.insert(index + i, c);
            proof {
                assert(all.take(i + 1) =~= all.take(i as int).push(c));
            }
            i += 1;
            proof {
                assert(containers@ =~= all.skip(i as int));
                assert(self.contents@ =~= old(self).contents@.take(index as int) + all.take(i as int) + old(self).contents@.skip(index as int));
            }
        }
        proof {
            assert(all.take(i as int) =~= all);
        }
    }
}

} // verus!
