//! Insert-or-skip records keyed by their natural keys: a system by its number,
//! a relationship by its (seller, buyer) pair.
use vstd::prelude::*;
use crate::model::{BuyerSellerRelationship, WaterDetail};
use crate::resolve::Resolution;

verus! {

/// What an upsert did.
#[derive(Clone, Copy, Debug, PartialEq, Eq, Structural)]
pub enum Upsert {
    Inserted,
    AlreadyExists,
}

/// The systems and relationships recorded so far, each key at most once.
pub struct Store {
    pub systems: Vec<WaterDetail>,
    pub relationships: Vec<BuyerSellerRelationship>,
}

pub open spec fn has_system(ss: Seq<WaterDetail>, key: Seq<char>) -> bool {
    exists|k: int| 0 <= k < ss.len() && (#[trigger] ss[k]).ws_number@ == key
}

pub open spec fn has_relationship(rs: Seq<BuyerSellerRelationship>, seller: Seq<char>, buyer: Seq<char>) -> bool {
    exists|k: int| 0 <= k < rs.len() && (#[trigger] rs[k]).seller@ == seller && rs[k].buyer@ == buyer
}

/// `ss` with `s` added unless its key is there already.
pub open spec fn with_system(ss: Seq<WaterDetail>, s: WaterDetail) -> Seq<WaterDetail> {
    if has_system(ss, s.ws_number@) {
        ss
    } else {
        ss.push(s)
    }
}

/// `rs` with `r` added unless its key is there already.
pub open spec fn with_relationship(rs: Seq<BuyerSellerRelationship>, r: BuyerSellerRelationship) -> Seq<BuyerSellerRelationship> {
    if has_relationship(rs, r.seller@, r.buyer@) {
        rs
    } else {
        rs.push(r)
    }
}

/// `ss` after upserting each of `list` in order.
pub open spec fn with_systems(ss: Seq<WaterDetail>, list: Seq<WaterDetail>) -> Seq<WaterDetail>
    decreases list.len(),
{
    if list.len() == 0 {
        ss
    } else {
        with_system(with_systems(ss, list.drop_last()), list.last())
    }
}

/// `rs` after upserting each of `list` in order.
pub open spec fn with_relationships(
    rs: Seq<BuyerSellerRelationship>,
    list: Seq<BuyerSellerRelationship>,
) -> Seq<BuyerSellerRelationship>
    decreases list.len(),
{
    if list.len() == 0 {
        rs
    } else {
        with_relationship(with_relationships(rs, list.drop_last()), list.last())
    }
}

impl Store {
    pub fn new() -> (r: Store)
        ensures
            r.systems@.len() == 0,
            r.relationships@.len() == 0,
    {
        Store { systems: Vec::new(), relationships: Vec::new() }
    }

    /// Records `s` unless a system with its number is recorded already.
    pub fn upsert_system(&mut self, s: &WaterDetail) -> (r: Upsert)
        ensures
            final(self).systems@ == with_system(old(self).systems@, *s),
            final(self).relationships@ == old(self).relationships@,
            r == (if has_system(old(self).systems@, s.ws_number@) {
                Upsert::AlreadyExists
            } else {
                Upsert::Inserted
            }),
    {
        let mut i: usize = 0;
        while i < self.systems.len()
            invariant
                self.systems@ == old(self).systems@,
                self.relationships@ == old(self).relationships@,
                i <= self.systems@.len(),
                forall|k: int| 0 <= k < i ==> (#[trigger] self.systems@[k]).ws_number@ != s.ws_number@,
            decreases self.systems@.len() - i,
        {
            if self.systems[i].ws_number == s.ws_number {
                return Upsert::AlreadyExists;
            }
            i = i + 1;
        }
        self.systems.push(s.duplicate());
        Upsert::Inserted
    }

    /// Records `r` unless a relationship with its seller and buyer is recorded
    /// already.
    pub fn upsert_relationship(&mut self, r: &BuyerSellerRelationship) -> (o: Upsert)
        ensures
            final(self).relationships@ == with_relationship(old(self).relationships@, *r),
            final(self).systems@ == old(self).systems@,
            o == (if has_relationship(old(self).relationships@, r.seller@, r.buyer@) {
                Upsert::AlreadyExists
            } else {
                Upsert::Inserted
            }),
    {
        let mut i: usize = 0;
        while i < self.relationships.len()
            invariant
                self.systems@ == old(self).systems@,
                self.relationships@ == old(self).relationships@,
                i <= self.relationships@.len(),
                forall|k: int|
                    0 <= k < i ==> !((#[trigger] self.relationships@[k]).seller@ == r.seller@
                        && self.relationships@[k].buyer@ == r.buyer@),
            decreases self.relationships@.len() - i,
        {
            let e = &self.relationships[i];
            if e.seller == r.seller && e.buyer == r.buyer {
                return Upsert::AlreadyExists;
            }
            i = i + 1;
        }
        self.relationships.push(r.duplicate());
        Upsert::Inserted
    }

    /// Upserts the systems of `page`, then its relationships, in order.
    pub fn record_page(&mut self, page: &Resolution) -> (r: (Vec<Upsert>, Vec<Upsert>))
        ensures
            final(self).systems@ == with_systems(old(self).systems@, page.systems@),
            final(self).relationships@ == with_relationships(old(self).relationships@, page.relationships@),
            r.0@.len() == page.systems@.len(),
            r.1@.len() == page.relationships@.len(),
            forall|k: int| 0 <= k < r.0@.len() ==> (#[trigger] r.0@[k] == Upsert::AlreadyExists
                <==> has_system(with_systems(old(self).systems@, page.systems@.subrange(0, k)), page.systems@[k].ws_number@)),
            forall|k: int| 0 <= k < r.1@.len() ==> (#[trigger] r.1@[k] == Upsert::AlreadyExists
                <==> has_relationship(
                    with_relationships(old(self).relationships@, page.relationships@.subrange(0, k)),
                    page.relationships@[k].seller@,
                    page.relationships@[k].buyer@,
                )),
    {
        let ghost ss0 = self.systems@;
        let ghost rs0 = self.relationships@;
        let mut a: Vec<Upsert> = Vec::new();
        let mut i: usize = 0;
        while i < page.systems.len()
            invariant
                i <= page.systems@.len(),
                self.systems@ == with_systems(ss0, page.systems@.subrange(0, i as int)),
                self.relationships@ == rs0,
                a@.len() == i,
                forall|k: int| 0 <= k < i ==> (#[trigger] a@[k] == Upsert::AlreadyExists
                    <==> has_system(with_systems(ss0, page.systems@.subrange(0, k)), page.systems@[k].ws_number@)),
            decreases page.systems@.len() - i,
        {
            assert(page.systems@.subrange(0, i + 1).drop_last() == page.systems@.subrange(0, i as int));
            let o = self.upsert_system(&page.systems[i]);
            a.push(o);
            i = i + 1;
        }
        assert(page.systems@.subrange(0, page.systems@.len() as int) == page.systems@);
        let mut b: Vec<Upsert> = Vec::new();
        let mut j: usize = 0;
        while j < page.relationships.len()
            invariant
                j <= page.relationships@.len(),
                self.systems@ == with_systems(ss0, page.systems@),
                self.relationships@ == with_relationships(rs0, page.relationships@.subrange(0, j as int)),
                b@.len() == j,
                forall|k: int| 0 <= k < j ==> (#[trigger] b@[k] == Upsert::AlreadyExists
                    <==> has_relationship(
                        with_relationships(rs0, page.relationships@.subrange(0, k)),
                        page.relationships@[k].seller@,
                        page.relationships@[k].buyer@,
                    )),
            decreases page.relationships@.len() - j,
        {
            assert(page.relationships@.subrange(0, j + 1).drop_last() == page.relationships@.subrange(0, j as int));
            let o = self.upsert_relationship(&page.relationships[j]);
            b.push(o);
            j = j + 1;
        }
        assert(page.relationships@.subrange(0, page.relationships@.len() as int) == page.relationships@);
        (a, b)
    }
}

proof fn lemma_systems_kept(ss: Seq<WaterDetail>, list: Seq<WaterDetail>, key: Seq<char>)
    requires
        has_system(ss, key),
    ensures
        has_system(with_systems(ss, list), key),
    decreases list.len(),
{
    if list.len() > 0 {
        lemma_systems_kept(ss, list.drop_last(), key);
        let prev = with_systems(ss, list.drop_last());
        let k = choose|k: int| 0 <= k < prev.len() && (#[trigger] prev[k]).ws_number@ == key;
        assert(with_system(prev, list.last())[k] == prev[k]);
    }
}

proof fn lemma_systems_present(ss: Seq<WaterDetail>, list: Seq<WaterDetail>)
    ensures
        forall|k: int| 0 <= k < list.len() ==> has_system(with_systems(ss, list), #[trigger] list[k].ws_number@),
    decreases list.len(),
{
    if list.len() > 0 {
        let init = list.drop_last();
        lemma_systems_present(ss, init);
        let prev = with_systems(ss, init);
        let next = with_systems(ss, list);
        assert forall|k: int| 0 <= k < list.len() implies has_system(next, #[trigger] list[k].ws_number@) by {
            if k < list.len() - 1 {
                assert(list[k] == init[k]);
                let m = choose|m: int| 0 <= m < prev.len() && (#[trigger] prev[m]).ws_number@ == init[k].ws_number@;
                assert(next[m] == prev[m]);
            } else if !has_system(prev, list.last().ws_number@) {
                assert(next[prev.len() as int] == list.last());
            }
        }
    }
}

proof fn lemma_systems_unchanged(ss: Seq<WaterDetail>, list: Seq<WaterDetail>)
    requires
        forall|k: int| 0 <= k < list.len() ==> has_system(ss, #[trigger] list[k].ws_number@),
    ensures
        with_systems(ss, list) == ss,
    decreases list.len(),
{
    if list.len() > 0 {
        let init = list.drop_last();
        assert forall|k: int| 0 <= k < init.len() implies has_system(ss, #[trigger] init[k].ws_number@) by {
            assert(init[k] == list[k]);
        }
        lemma_systems_unchanged(ss, init);
        assert(has_system(ss, list[list.len() - 1].ws_number@));
    }
}

proof fn lemma_relationships_kept(
    rs: Seq<BuyerSellerRelationship>,
    list: Seq<BuyerSellerRelationship>,
    seller: Seq<char>,
    buyer: Seq<char>,
)
    requires
        has_relationship(rs, seller, buyer),
    ensures
        has_relationship(with_relationships(rs, list), seller, buyer),
    decreases list.len(),
{
    if list.len() > 0 {
        lemma_relationships_kept(rs, list.drop_last(), seller, buyer);
        let prev = with_relationships(rs, list.drop_last());
        let k = choose|k: int| 0 <= k < prev.len() && (#[trigger] prev[k]).seller@ == seller && prev[k].buyer@ == buyer;
        assert(with_relationship(prev, list.last())[k] == prev[k]);
    }
}

proof fn lemma_relationships_present(rs: Seq<BuyerSellerRelationship>, list: Seq<BuyerSellerRelationship>)
    ensures
        forall|k: int| 0 <= k < list.len() ==> has_relationship(with_relationships(rs, list), #[trigger] list[k].seller@, list[k].buyer@),
    decreases list.len(),
{
    if list.len() > 0 {
        let init = list.drop_last();
        lemma_relationships_present(rs, init);
        let prev = with_relationships(rs, init);
        let next = with_relationships(rs, list);
        assert forall|k: int| 0 <= k < list.len() implies has_relationship(next, #[trigger] list[k].seller@, list[k].buyer@) by {
            if k < list.len() - 1 {
                assert(list[k] == init[k]);
                let m = choose|m: int| 0 <= m < prev.len() && (#[trigger] prev[m]).seller@ == init[k].seller@ && prev[m].buyer@ == init[k].buyer@;
                assert(next[m] == prev[m]);
            } else if !has_relationship(prev, list.last().seller@, list.last().buyer@) {
                assert(next[prev.len() as int] == list.last());
            }
        }
    }
}

proof fn lemma_relationships_unchanged(rs: Seq<BuyerSellerRelationship>, list: Seq<BuyerSellerRelationship>)
    requires
        forall|k: int| 0 <= k < list.len() ==> has_relationship(rs, #[trigger] list[k].seller@, list[k].buyer@),
    ensures
        with_relationships(rs, list) == rs,
    decreases list.len(),
{
    if list.len() > 0 {
        let init = list.drop_last();
        assert forall|k: int| 0 <= k < init.len() implies has_relationship(rs, #[trigger] init[k].seller@, init[k].buyer@) by {
            assert(init[k] == list[k]);
        }
        lemma_relationships_unchanged(rs, init);
        assert(has_relationship(rs, list[list.len() - 1].seller@, list[list.len() - 1].buyer@));
    }
}

/// Recording the same page twice leaves the store as recording it once: after
/// the first pass every record's key is present, so on the second pass each
/// upsert finds its key and reports `AlreadyExists`.
pub proof fn lemma_record_page_idempotent(
    ss: Seq<WaterDetail>,
    rs: Seq<BuyerSellerRelationship>,
    page: Resolution,
)
    ensures
        with_systems(with_systems(ss, page.systems@), page.systems@) == with_systems(ss, page.systems@),
        with_relationships(with_relationships(rs, page.relationships@), page.relationships@)
            == with_relationships(rs, page.relationships@),
        forall|k: int|
            0 <= k < page.systems@.len() ==> has_system(
                with_systems(ss, page.systems@),
                #[trigger] page.systems@[k].ws_number@,
            ),
        forall|k: int|
            0 <= k < page.relationships@.len() ==> has_relationship(
                with_relationships(rs, page.relationships@),
                #[trigger] page.relationships@[k].seller@,
                page.relationships@[k].buyer@,
            ),
        forall|k: int|
            0 <= k < page.systems@.len() ==> has_system(
                with_systems(with_systems(ss, page.systems@), page.systems@.subrange(0, k)),
                #[trigger] page.systems@[k].ws_number@,
            ),
        forall|k: int|
            0 <= k < page.relationships@.len() ==> has_relationship(
                with_relationships(
                    with_relationships(rs, page.relationships@),
                    page.relationships@.subrange(0, k),
                ),
                #[trigger] page.relationships@[k].seller@,
                page.relationships@[k].buyer@,
            ),
{
    let s1 = with_systems(ss, page.systems@);
    let r1 = with_relationships(rs, page.relationships@);
    lemma_systems_present(ss, page.systems@);
    lemma_systems_unchanged(s1, page.systems@);
    lemma_relationships_present(rs, page.relationships@);
    lemma_relationships_unchanged(r1, page.relationships@);
    assert forall|k: int| 0 <= k < page.systems@.len() implies has_system(
        with_systems(s1, page.systems@.subrange(0, k)),
        #[trigger] page.systems@[k].ws_number@,
    ) by {
        lemma_systems_kept(s1, page.systems@.subrange(0, k), page.systems@[k].ws_number@);
    }
    assert forall|k: int| 0 <= k < page.relationships@.len() implies has_relationship(
        with_relationships(r1, page.relationships@.subrange(0, k)),
        #[trigger] page.relationships@[k].seller@,
        page.relationships@[k].buyer@,
    ) by {
        lemma_relationships_kept(
            r1,
            page.relationships@.subrange(0, k),
            page.relationships@[k].seller@,
            page.relationships@[k].buyer@,
        );
    }
}

} // verus!
