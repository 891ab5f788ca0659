//! The credential store: one record per issued token, holding the token's
//! display prefix and its keyed hash, never the token itself.

use vstd::prelude::*;

verus! {

/// An issued token as it is listed: its identity and the first characters
/// of the raw token. The hash is never listed.
#[derive(Debug, Clone, PartialEq, Eq)]
pub struct Token {
    id: i64,
    prefix: String,
}

/// What a listed token holds.
pub ghost struct TokenView {
    pub id: int,
    pub prefix: Seq<char>,
}

impl View for Token {
    type V = TokenView;

    closed spec fn view(&self) -> TokenView {
        TokenView { id: self.id as int, prefix: self.prefix@ }
    }
}

impl Token {
    /// The identity that the store gave the token.
    pub fn id(&self) -> (id: i64)
        ensures
            id == self@.id,
    {
        self.id
    }

    /// The first characters of the raw token, for display.
    pub fn prefix(&self) -> (prefix: &String)
        ensures
            prefix@ == self@.prefix,
    {
        &self.prefix
    }
}

/// One row of the credential store.
#[derive(Debug, Clone, PartialEq, Eq)]
pub struct TokenRecord {
    pub id: i64,
    pub prefix: String,
    pub hash: String,
}

/// What a row of the credential store holds.
pub ghost struct TokenRecordView {
    pub id: int,
    pub prefix: Seq<char>,
    pub hash: Seq<char>,
}

impl View for TokenRecord {
    type V = TokenRecordView;

    open spec fn view(&self) -> TokenRecordView {
        TokenRecordView { id: self.id as int, prefix: self.prefix@, hash: self.hash@ }
    }
}

impl TokenRecord {
    /// A copy of the record.
    pub fn duplicate(&self) -> (r: TokenRecord)
        ensures
            r == *self,
    {
        TokenRecord { id: self.id, prefix: self.prefix.clone(), hash: self.hash.clone() }
    }
}

/// The views of a sequence of records, in the same order.
pub open spec fn record_views(records: Seq<TokenRecord>) -> Seq<TokenRecordView> {
    records.map_values(|r: TokenRecord| r@)
}

/// The identities rise strictly along `records`.
pub open spec fn ids_increasing(records: Seq<TokenRecordView>) -> bool {
    forall|i: int, j: int| 0 <= i < j < records.len() ==> records[i].id < records[j].id
}

/// What a listing shows of `records`: identity and prefix of each, in order.
pub open spec fn listed(records: Seq<TokenRecordView>) -> Seq<TokenView> {
    records.map_values(|r: TokenRecordView| TokenView { id: r.id, prefix: r.prefix })
}

/// `records` without those whose identity is `id`, the others in order.
pub open spec fn without_id(records: Seq<TokenRecordView>, id: int) -> Seq<TokenRecordView>
    decreases records.len(),
{
    if records.len() == 0 {
        records
    } else if records.last().id == id {
        without_id(records.drop_last(), id)
    } else {
        without_id(records.drop_last(), id).push(records.last())
    }
}

/// Some record of `records` holds `hash`.
pub open spec fn has_hash(records: Seq<TokenRecordView>, hash: Seq<char>) -> bool {
    exists|i: int| 0 <= i < records.len() && #[trigger] records[i].hash == hash
}

/// `i` is the place of the first record of `records` that holds `hash`.
pub open spec fn is_first_with_hash(records: Seq<TokenRecordView>, hash: Seq<char>, i: int) -> bool {
    &&& 0 <= i < records.len()
    &&& records[i].hash == hash
    &&& forall|j: int| 0 <= j < i ==> #[trigger] records[j].hash != hash
}

/// What a credential store holds: its records in the order of their
/// identities, and the identity that the next record will get.
pub ghost struct CredentialStoreView {
    pub records: Seq<TokenRecordView>,
    pub next_id: int,
}

/// The credential store. Identities are given out in rising order and never
/// twice, also after a record has been deleted.
#[derive(Debug)]
pub struct CredentialStore {
    records: Vec<TokenRecord>,
    next_id: i64,
}

impl View for CredentialStore {
    type V = CredentialStoreView;

    closed spec fn view(&self) -> CredentialStoreView {
        CredentialStoreView { records: record_views(self.records@), next_id: self.next_id as int }
    }
}

impl CredentialStoreView {
    /// The records stand in the order of their identities, and every
    /// identity in use lies below the next one to be given out.
    pub open spec fn wf(self) -> bool {
        &&& ids_increasing(self.records)
        &&& forall|i: int| 0 <= i < self.records.len() ==> (#[trigger] self.records[i]).id < self.next_id
        &&& self.next_id <= i64::MAX
    }
}

/// Every record that `without_id` keeps was there before, in the same
/// order, and none of the kept ones has the identity `id`.
pub proof fn lemma_without_id_keeps_order(records: Seq<TokenRecordView>, id: int)
    requires
        ids_increasing(records),
    ensures
        ids_increasing(without_id(records, id)),
        without_id(records, id).len() <= records.len(),
        forall|k: int|
            0 <= k < without_id(records, id).len() ==> records.contains(
                #[trigger] without_id(records, id)[k],
            ) && without_id(records, id)[k].id != id,
    decreases records.len(),
{
    if records.len() > 0 {
        let rest = records.drop_last();
        lemma_without_id_keeps_order(rest, id);
        let kept = without_id(rest, id);
        assert forall|k: int| 0 <= k < kept.len() implies records.contains(#[trigger] kept[k])
            && kept[k].id < records.last().id by {
            let j = choose|j: int| 0 <= j < rest.len() && rest[j] == kept[k];
            assert(records[j] == kept[k]);
        }
        if records.last().id != id {
            assert(records[records.len() - 1] == records.last());
        }
    }
}

/// A record whose identity is not `id` is kept by `without_id`, and a store
/// that holds no such identity is left as it is.
pub proof fn lemma_without_id_absent(records: Seq<TokenRecordView>, id: int)
    requires
        forall|i: int| 0 <= i < records.len() ==> (#[trigger] records[i]).id != id,
    ensures
        without_id(records, id) == records,
    decreases records.len(),
{
    if records.len() > 0 {
        lemma_without_id_absent(records.drop_last(), id);
        assert(records.drop_last().push(records.last()) =~= records);
    }
}

/// Revoking is idempotent: to delete the same identity a second time
/// changes nothing, so both calls leave the same list of tokens.
pub proof fn law_revoke_idempotent(records: Seq<TokenRecordView>, id: int)
    ensures
        without_id(without_id(records, id), id) == without_id(records, id),
        listed(without_id(without_id(records, id), id)) == listed(without_id(records, id)),
    decreases records.len(),
{
    if records.len() > 0 {
        let rest = records.drop_last();
        law_revoke_idempotent(rest, id);
        if records.last().id != id {
            let kept = without_id(rest, id);
            let all = kept.push(records.last());
            assert(all.drop_last() =~= kept);
            assert(all.last() == records.last());
        }
    }
}

/// To delete an identity that no record has is no error and changes
/// nothing.
pub proof fn law_revoke_unknown_is_noop(store: CredentialStoreView, id: int)
    requires
        forall|i: int| 0 <= i < store.records.len() ==> (#[trigger] store.records[i]).id != id,
    ensures
        without_id(store.records, id) == store.records,
{
    lemma_without_id_absent(store.records, id);
}

impl CredentialStore {
    /// The store with no record in it. The first identity will be 1.
    pub fn new() -> (store: CredentialStore)
        ensures
            store@.wf(),
            store@.records == Seq::<TokenRecordView>::empty(),
            store@.next_id == 1,
    {
        CredentialStore { records: Vec::new(), next_id: 1 }
    }

    /// Takes up the records that were kept from an earlier run. They are
    /// accepted where their identities rise strictly and leave room for one
    /// more; the next identity is then one above the last, or 1 where there
    /// is none.
    pub fn load(records: Vec<TokenRecord>) -> (r: Option<CredentialStore>)
        ensures
            r is Some <==> ids_increasing(record_views(records@)) && (forall|i: int|
                0 <= i < records@.len() ==> (#[trigger] record_views(records@)[i]).id < i64::MAX),
            r matches Some(store) ==> store@.wf() && store@.records == record_views(records@)
                && store@.next_id == if records@.len() == 0 {
                1int
            } else {
                records@.last().id + 1
            },
    {
        let n: usize = records.len();
        let ghost views = record_views(records@);
        let mut i: usize = 0;
        let mut next_id: i64 = 1;
        while i < n
            invariant
                n == records@.len(),
                views == record_views(records@),
                i <= n,
                forall|a: int, b: int| 0 <= a < b < i ==> views[a].id < views[b].id,
                forall|k: int| 0 <= k < i ==> (#[trigger] views[k]).id < i64::MAX,
                next_id as int == if i == 0 {
                    1int
                } else {
                    views[i - 1].id + 1
                },
            decreases n - i,
        {
            let id: i64 = records[i].id;
            assert(views[i as int].id == id);
            if id == i64::MAX || (i > 0 && id < next_id) {
                proof {
                    if id != i64::MAX {
                        assert(!(views[i - 1].id < views[i as int].id));
                    }
                }
                return None;
            }
            proof {
                assert forall|a: int, b: int| 0 <= a < b < i + 1 implies views[a].id < views[b].id by {
                    if b == i && a < i - 1 {
                        assert(views[a].id < views[i - 1].id);
                    }
                }
            }
            next_id = id + 1;
            i = i + 1;
        }
        assert(ids_increasing(views));
        Some(CredentialStore { records, next_id })
    }

    /// Adds a record for a newly issued token and returns the identity it
    /// got: the next in turn. Where the identities are used up nothing is
    /// added.
    pub fn insert(&mut self, prefix: String, hash: String) -> (r: Option<i64>)
        requires
            old(self)@.wf(),
        ensures
            final(self)@.wf(),
            old(self)@.next_id == i64::MAX ==> r is None && final(self)@ == old(self)@,
            old(self)@.next_id < i64::MAX ==> r is Some && r->Some_0 == old(self)@.next_id
                && final(self)@.next_id == old(self)@.next_id + 1 && final(self)@.records == old(
                self,
            )@.records.push(
                (TokenRecordView { id: old(self)@.next_id, prefix: prefix@, hash: hash@ }),
            ),
    {
        if self.next_id == i64::MAX {
            return None;
        }
        let id: i64 = self.next_id;
        let ghost before = self.records@;
        self.records.push(TokenRecord { id, prefix, hash });
        self.next_id = id + 1;
        proof {
            assert(record_views(self.records@) =~= record_views(before).push(
                (TokenRecordView { id: id as int, prefix: prefix@, hash: hash@ }),
            ));
        }
        Some(id)
    }

    /// Looks for a record that holds `hash` and returns the identity of the
    /// first one.
    pub fn find_by_hash(&self, hash: &String) -> (r: Option<i64>)
        ensures
            r is Some <==> has_hash(self@.records, hash@),
            r matches Some(id) ==> exists|i: int|
                is_first_with_hash(self@.records, hash@, i) && (#[trigger] self@.records[i]).id
                    == id,
    {
        let n: usize = self.records.len();
        let mut i: usize = 0;
        while i < n
            invariant
                n == self.records@.len(),
                i <= n,
                forall|j: int| 0 <= j < i ==> (#[trigger] self@.records[j]).hash != hash@,
            decreases n - i,
        {
            if self.records[i].hash == *hash {
                assert(self@.records[i as int].hash == hash@);
                assert(is_first_with_hash(self@.records, hash@, i as int));
                return Some(self.records[i].id);
            }
            i = i + 1;
        }
        None
    }

    /// The record with the identity `id`, where there is one.
    pub fn get(&self, id: i64) -> (r: Option<TokenRecord>)
        ensures
            r is Some <==> exists|i: int|
                0 <= i < self@.records.len() && (#[trigger] self@.records[i]).id == id,
            r matches Some(rec) ==> self@.records.contains(rec@) && rec@.id == id,
    {
        let n: usize = self.records.len();
        let mut i: usize = 0;
        while i < n
            invariant
                n == self.records@.len(),
                i <= n,
                forall|j: int| 0 <= j < i ==> (#[trigger] self@.records[j]).id != id,
            decreases n - i,
        {
            if self.records[i].id == id {
                let rec = self.records[i].duplicate();
                assert(self@.records[i as int] == rec@);
                return Some(rec);
            }
            i = i + 1;
        }
        None
    }

    /// Lists the tokens: identity and prefix of every record, in the order
    /// of their identities.
    pub fn tokens(&self) -> (list: Vec<Token>)
        ensures
            token_views(list@) == listed(self@.records),
    {
        let n: usize = self.records.len();
        let mut list: Vec<Token> = Vec::new();
        let mut i: usize = 0;
        while i < n
            invariant
                n == self.records@.len(),
                i <= n,
                token_views(list@) == listed(self@.records.take(i as int)),
            decreases n - i,
        {
            let rec = &self.records[i];
            let ghost before = list@;
            list.push(Token { id: rec.id, prefix: rec.prefix.clone() });
            proof {
                assert(token_views(list@) =~= token_views(before).push(
                    (TokenView { id: rec.id as int, prefix: rec.prefix@ }),
                ));
                assert(listed(self@.records.take(i + 1)) =~= listed(
                    self@.records.take(i as int),
                ).push((TokenView { id: rec.id as int, prefix: rec.prefix@ })));
            }
            i = i + 1;
        }
        assert(self@.records.take(n as int) =~= self@.records);
        list
    }

    /// Deletes the record with the identity `id`. Where there is none the
    /// store stays as it is.
    pub fn delete(&mut self, id: i64)
        requires
            old(self)@.wf(),
        ensures
            final(self)@.wf(),
            final(self)@.next_id == old(self)@.next_id,
            final(self)@.records == without_id(old(self)@.records, id as int),
    {
        let n: usize = self.records.len();
        let ghost all = self@.records;
        let mut kept: Vec<TokenRecord> = Vec::new();
        let mut i: usize = 0;
        while i < n
            invariant
                n == self.records@.len(),
                all == record_views(self.records@),
                i <= n,
                record_views(kept@) == without_id(all.take(i as int), id as int),
            decreases n - i,
        {
            let ghost before = kept@;
            assert(all.take(i + 1).drop_last() =~= all.take(i as int));
            assert(all.take(i + 1).last() == all[i as int]);
            if self.records[i].id != id {
                let rec = self.records[i].duplicate();
                kept.push(rec);
                assert(record_views(kept@) =~= record_views(before).push(all[i as int]));
            }
            i = i + 1;
        }
        proof {
            assert(all.take(n as int) =~= all);
            lemma_without_id_keeps_order(all, id as int);
            assert forall|k: int| 0 <= k < without_id(all, id as int).len() implies (
            #[trigger] without_id(all, id as int)[k]).id < self.next_id by {
                let r = without_id(all, id as int)[k];
                assert(all.contains(r));
                let j = choose|j: int| 0 <= j < all.len() && all[j] == r;
                assert(all[j].id < self.next_id);
            }
        }
        self.records = kept;
    }
}

/// The views of a sequence of listed tokens, in the same order.
pub open spec fn token_views(tokens: Seq<Token>) -> Seq<TokenView> {
    tokens.map_values(|t: Token| t@)
}

/// Lists the issued tokens, identity and prefix of each. Hashes are never
/// handed out.
pub fn get_tokens(store: &CredentialStore) -> (list: Vec<Token>)
    ensures
        token_views(list@) == listed(store@.records),
{
    store.tokens()
}

/// Revokes the token with the identity `id` and lists those that remain.
/// An identity that no token has is no error: the list is then the one
/// from before.
pub fn delete_token(store: &mut CredentialStore, id: u64) -> (list: Vec<Token>)
    requires
        old(store)@.wf(),
    ensures
        final(store)@.wf(),
        final(store)@.next_id == old(store)@.next_id,
        final(store)@.records == without_id(old(store)@.records, id as int),
        token_views(list@) == listed(final(store)@.records),
{
    if id <= 0x7fff_ffff_ffff_ffff {
        store.delete(id as i64);
    } else {
        proof {
            lemma_without_id_absent(store@.records, id as int);
        }
    }
    store.tokens()
}

} // verus!
