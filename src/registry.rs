use crate::decimal::{Decimal, OracleError};
use crate::msg::SourceType;
use vstd::prelude::*;
use vstd::string::*;

verus! {

/// A registered collateral asset.
#[derive(Clone, Debug, PartialEq)]
pub struct CollateralAssetInfo {
    pub asset: String,
    pub price_source: SourceType,
    pub multiplier: Decimal,
    pub is_revoked: bool,
}

/// What a `CollateralAssetInfo` holds.
pub struct AssetView {
    pub asset: Seq<char>,
    pub price_source: SourceType,
    pub multiplier: Decimal,
    pub is_revoked: bool,
}

impl View for CollateralAssetInfo {
    type V = AssetView;

    open spec fn view(&self) -> AssetView {
        AssetView {
            asset: self.asset@,
            price_source: self.price_source,
            multiplier: self.multiplier,
            is_revoked: self.is_revoked,
        }
    }
}

impl CollateralAssetInfo {
    pub fn copy(&self) -> (r: CollateralAssetInfo)
        ensures
            r@ == self@,
    {
        CollateralAssetInfo {
            asset: self.asset.clone(),
            price_source: self.price_source,
            multiplier: self.multiplier,
            is_revoked: self.is_revoked,
        }
    }
}

/// Lexical order of character sequences, by code point.
pub open spec fn chars_lt(a: Seq<char>, b: Seq<char>) -> bool
    decreases a.len(),
{
    if a.len() == 0 {
        b.len() > 0
    } else if b.len() == 0 {
        false
    } else if a[0] != b[0] {
        a[0] < b[0]
    } else {
        chars_lt(a.drop_first(), b.drop_first())
    }
}

pub proof fn lemma_chars_lt_irreflexive(a: Seq<char>)
    ensures
        !chars_lt(a, a),
    decreases a.len(),
{
    if a.len() > 0 {
        lemma_chars_lt_irreflexive(a.drop_first());
    }
}

pub proof fn lemma_chars_lt_total(a: Seq<char>, b: Seq<char>)
    requires
        a != b,
    ensures
        chars_lt(a, b) || chars_lt(b, a),
    decreases a.len(),
{
    if a.len() > 0 && b.len() > 0 && a[0] == b[0] {
        if a.drop_first() == b.drop_first() {
            assert(a =~= seq![a[0]] + a.drop_first());
            assert(b =~= seq![b[0]] + b.drop_first());
        }
        lemma_chars_lt_total(a.drop_first(), b.drop_first());
    } else if a.len() == 0 && b.len() == 0 {
        assert(a =~= b);
    }
}

pub proof fn lemma_chars_lt_transitive(a: Seq<char>, b: Seq<char>, c: Seq<char>)
    requires
        chars_lt(a, b),
        chars_lt(b, c),
    ensures
        chars_lt(a, c),
    decreases a.len(),
{
    if a.len() > 0 && b.len() > 0 && c.len() > 0 && a[0] == b[0] && b[0] == c[0] {
        lemma_chars_lt_transitive(a.drop_first(), b.drop_first(), c.drop_first());
    }
}

/// Compares two strings in lexical order.
pub fn key_lt(a: &String, b: &String) -> (r: bool)
    ensures
        r == chars_lt(a@, b@),
{
    let sa = a.as_str();
    let sb = b.as_str();
    let la = sa.unicode_len();
    let lb = sb.unicode_len();
    let mut i: usize = 0;
    assert(a@.skip(0) =~= a@);
    assert(b@.skip(0) =~= b@);
    while i < la && i < lb
        invariant
            i <= la,
            i <= lb,
            la == a@.len(),
            lb == b@.len(),
            sa@ == a@,
            sb@ == b@,
            chars_lt(a@, b@) == chars_lt(a@.skip(i as int), b@.skip(i as int)),
        decreases la - i,
    {
        let ca = sa.get_char(i);
        let cb = sb.get_char(i);
        if ca != cb {
            proof {
                assert(a@.skip(i as int)[0] == ca);
                assert(b@.skip(i as int)[0] == cb);
            }
            return ca < cb;
        }
        proof {
            assert(a@.skip(i as int).drop_first() =~= a@.skip(i + 1));
            assert(b@.skip(i as int).drop_first() =~= b@.skip(i + 1));
        }
        i = i + 1;
    }
    proof {
        if i == la {
            assert(a@.skip(i as int).len() == 0);
        } else {
            assert(b@.skip(i as int).len() == 0);
        }
    }
    i == la && i < lb
}

/// The entry for `k` in a sequence of entries, the last one if several match.
pub open spec fn find_entry(s: Seq<AssetView>, k: Seq<char>) -> Option<AssetView>
    decreases s.len(),
{
    if s.len() == 0 {
        None
    } else if s.last().asset == k {
        Some(s.last())
    } else {
        find_entry(s.drop_last(), k)
    }
}

/// Entries ordered strictly by their asset key.
pub open spec fn sorted_by_key(s: Seq<AssetView>) -> bool {
    forall|i: int, j: int| 0 <= i < j < s.len() ==> chars_lt(#[trigger] s[i].asset, #[trigger] s[j].asset)
}

pub proof fn lemma_find_absent(s: Seq<AssetView>, k: Seq<char>)
    requires
        forall|i: int| 0 <= i < s.len() ==> (#[trigger] s[i]).asset != k,
    ensures
        find_entry(s, k) is None,
    decreases s.len(),
{
    if s.len() > 0 {
        assert(s.last() == s[s.len() - 1]);
        assert forall|i: int| 0 <= i < s.drop_last().len() implies (#[trigger] s.drop_last()[i]).asset != k by {
            assert(s.drop_last()[i] == s[i]);
        }
        lemma_find_absent(s.drop_last(), k);
    }
}

pub proof fn lemma_find_at(s: Seq<AssetView>, i: int)
    requires
        sorted_by_key(s),
        0 <= i < s.len(),
    ensures
        find_entry(s, s[i].asset) == Some(s[i]),
    decreases s.len(),
{
    if i < s.len() - 1 {
        let t = s.drop_last();
        if s.last().asset == s[i].asset {
            assert(chars_lt(s[i].asset, s[s.len() - 1].asset));
            lemma_chars_lt_irreflexive(s[i].asset);
        }
        assert forall|a: int, b: int| 0 <= a < b < t.len() implies chars_lt(#[trigger] t[a].asset, #[trigger] t[b].asset) by {
            assert(t[a] == s[a] && t[b] == s[b]);
        }
        assert(t[i] == s[i]);
        lemma_find_at(t, i);
    }
}


/// The entries of a sequence, by asset key.
pub open spec fn entries_of(s: Seq<AssetView>) -> Map<Seq<char>, AssetView> {
    Map::new(|k: Seq<char>| find_entry(s, k) is Some, |k: Seq<char>| find_entry(s, k)->Some_0)
}

proof fn lemma_find_of_key(s: Seq<AssetView>, q: Seq<char>)
    requires
        sorted_by_key(s),
    ensures
        find_entry(s, q) is None ==> forall|i: int| 0 <= i < s.len() ==> (#[trigger] s[i]).asset != q,
{
    if find_entry(s, q) is None {
        assert forall|i: int| 0 <= i < s.len() implies (#[trigger] s[i]).asset != q by {
            if s[i].asset == q {
                lemma_find_at(s, i);
            }
        }
    }
}

proof fn lemma_find_some(s: Seq<AssetView>, q: Seq<char>)
    ensures
        find_entry(s, q) is Some ==> exists|i: int| 0 <= i < s.len() && (#[trigger] s[i]).asset == q,
    decreases s.len(),
{
    if s.len() > 0 && s.last().asset != q {
        lemma_find_some(s.drop_last(), q);
        if find_entry(s, q) is Some {
            let i = choose|i: int| 0 <= i < s.drop_last().len() && (#[trigger] s.drop_last()[i]).asset == q;
            assert(s[i] == s.drop_last()[i]);
        }
    } else if s.len() > 0 {
        assert(s[s.len() - 1].asset == q);
    }
}

proof fn lemma_same_keys_same_find(s: Seq<AssetView>, n: Seq<AssetView>, q: Seq<char>, f: spec_fn(int) -> int)
    requires
        sorted_by_key(s),
        sorted_by_key(n),
        forall|i: int| 0 <= i < s.len() ==> 0 <= #[trigger] f(i) < n.len() && n[f(i)].asset == s[i].asset,
        forall|i: int| 0 <= i < s.len() && (#[trigger] s[i]).asset == q ==> n[f(i)] == s[i],
        forall|j: int| 0 <= j < n.len() && (#[trigger] n[j]).asset == q ==> exists|i: int| 0 <= i < s.len() && #[trigger] f(i) == j,
    ensures
        find_entry(n, q) == find_entry(s, q),
{
    lemma_find_of_key(s, q);
    lemma_find_of_key(n, q);
    lemma_find_some(s, q);
    lemma_find_some(n, q);
    if find_entry(s, q) is Some {
        let i = choose|i: int| 0 <= i < s.len() && (#[trigger] s[i]).asset == q;
        if find_entry(n, q) is None {
            assert(n[f(i)].asset == q);
        }
        lemma_find_at(s, i);
        lemma_find_at(n, f(i));
    } else if find_entry(n, q) is Some {
        let j = choose|j: int| 0 <= j < n.len() && (#[trigger] n[j]).asset == q;
        let i = choose|i: int| 0 <= i < s.len() && #[trigger] f(i) == j;
        assert(n[f(i)].asset == s[i].asset);
        assert(s[i].asset == q);
    }
}


/// The entry that registration creates.
pub open spec fn new_entry(k: Seq<char>, price_source: SourceType, multiplier: Decimal) -> AssetView {
    AssetView { asset: k, price_source, multiplier, is_revoked: false }
}

/// Outcome of registering `k`: refused when `k` is present, else the new entry is added.
pub open spec fn registration(
    m: Map<Seq<char>, AssetView>,
    k: Seq<char>,
    price_source: SourceType,
    multiplier: Decimal,
) -> (Result<(), OracleError>, Map<Seq<char>, AssetView>) {
    if m.contains_key(k) {
        (Err(OracleError::DuplicateAsset), m)
    } else {
        (Ok(()), m.insert(k, new_entry(k, price_source, multiplier)))
    }
}

/// Outcome of changing the entry of `k` with `change`: refused when `k` is absent.
pub open spec fn amendment(
    m: Map<Seq<char>, AssetView>,
    k: Seq<char>,
    change: spec_fn(AssetView) -> AssetView,
) -> (Result<(), OracleError>, Map<Seq<char>, AssetView>) {
    if m.contains_key(k) {
        (Ok(()), m.insert(k, change(m[k])))
    } else {
        (Err(OracleError::NotFound), m)
    }
}

pub open spec fn revoked(e: AssetView) -> AssetView {
    AssetView { is_revoked: true, ..e }
}

pub open spec fn with_source(price_source: SourceType) -> spec_fn(AssetView) -> AssetView {
    |e: AssetView| AssetView { price_source, ..e }
}

pub open spec fn with_multiplier(multiplier: Decimal) -> spec_fn(AssetView) -> AssetView {
    |e: AssetView| AssetView { multiplier, ..e }
}

/// Registering an asset twice: the second call is refused and leaves the
/// first entry as it was.
pub proof fn lemma_register_twice(
    m: Map<Seq<char>, AssetView>,
    k: Seq<char>,
    source1: SourceType,
    multiplier1: Decimal,
    source2: SourceType,
    multiplier2: Decimal,
)
    requires
        !m.contains_key(k),
    ensures
        registration(m, k, source1, multiplier1).0 == Ok::<(), OracleError>(()),
        registration(registration(m, k, source1, multiplier1).1, k, source2, multiplier2) == (
        Err::<(), OracleError>(OracleError::DuplicateAsset),
        registration(m, k, source1, multiplier1).1),
        registration(m, k, source1, multiplier1).1[k] == new_entry(k, source1, multiplier1),
{
}

/// Revoking an asset that was never registered is refused with `NotFound`.
pub proof fn lemma_revoke_unregistered(m: Map<Seq<char>, AssetView>, k: Seq<char>)
    requires
        !m.contains_key(k),
    ensures
        amendment(m, k, |e: AssetView| revoked(e)) == (Err::<(), OracleError>(OracleError::NotFound), m),
{
}

/// Once revoked, an asset stays revoked through any further revocation,
/// change of source or change of multiplier, and registration cannot reset it.
pub proof fn lemma_revoked_stays(
    m: Map<Seq<char>, AssetView>,
    k: Seq<char>,
    q: Seq<char>,
    price_source: SourceType,
    multiplier: Decimal,
)
    requires
        m.contains_key(k),
    ensures
        amendment(m, k, |e: AssetView| revoked(e)).1[k].is_revoked,
        amendment(amendment(m, k, |e: AssetView| revoked(e)).1, q, |e: AssetView| revoked(e)).1[k].is_revoked,
        amendment(amendment(m, k, |e: AssetView| revoked(e)).1, q, with_source(price_source)).1[k].is_revoked,
        amendment(amendment(m, k, |e: AssetView| revoked(e)).1, q, with_multiplier(multiplier)).1[k].is_revoked,
        registration(amendment(m, k, |e: AssetView| revoked(e)).1, k, price_source, multiplier).1[k].is_revoked,
{
}


/// Every listed entry is registered under its key, and every registered key is listed.
pub proof fn lemma_entries_listed(s: Seq<AssetView>)
    requires
        sorted_by_key(s),
    ensures
        forall|i: int| 0 <= i < s.len() ==> entries_of(s).contains_key(#[trigger] s[i].asset) && entries_of(s)[s[i].asset] == s[i],
        forall|k: Seq<char>| #[trigger] entries_of(s).contains_key(k) ==> exists|i: int| 0 <= i < s.len() && s[i].asset == k,
{
    assert forall|i: int| 0 <= i < s.len() implies entries_of(s).contains_key(#[trigger] s[i].asset) && entries_of(s)[s[i].asset] == s[i] by {
        lemma_find_at(s, i);
    }
    assert forall|k: Seq<char>| #[trigger] entries_of(s).contains_key(k) implies exists|i: int| 0 <= i < s.len() && s[i].asset == k by {
        lemma_find_some(s, k);
    }
}

proof fn lemma_drop_first_entries(s: Seq<AssetView>)
    requires
        sorted_by_key(s),
        s.len() > 0,
    ensures
        sorted_by_key(s.drop_first()),
        entries_of(s.drop_first()) == entries_of(s).remove(s[0].asset),
{
    let t = s.drop_first();
    assert forall|a: int, b: int| 0 <= a < b < t.len() implies chars_lt(#[trigger] t[a].asset, #[trigger] t[b].asset) by {
        assert(t[a] == s[a + 1] && t[b] == s[b + 1]);
    }
    let f = |i: int| i + 1;
    assert forall|i: int| 0 <= i < t.len() implies 0 <= #[trigger] f(i) < s.len() && s[f(i)] == t[i] by {
    }
    assert forall|q: Seq<char>| #[trigger] find_entry(t, q) == (if q == s[0].asset { None } else { find_entry(s, q) }) by {
        if q == s[0].asset {
            assert forall|i: int| 0 <= i < t.len() implies (#[trigger] t[i]).asset != q by {
                assert(t[i] == s[i + 1]);
                assert(chars_lt(s[0].asset, s[i + 1].asset));
                lemma_chars_lt_irreflexive(q);
            }
            lemma_find_absent(t, q);
        } else {
            assert forall|j: int| 0 <= j < s.len() && (#[trigger] s[j]).asset == q implies exists|i: int| 0 <= i < t.len() && #[trigger] f(i) == j by {
                assert(f(j - 1) == j);
            }
            lemma_same_keys_same_find(t, s, q, f);
        }
    }
    assert(entries_of(t) =~= entries_of(s).remove(s[0].asset));
}

/// Listing is determined by what is registered: two registries with the same
/// entries list them in the same order, whatever order they were registered in.
pub proof fn lemma_listing_determined(a: Seq<AssetView>, b: Seq<AssetView>)
    requires
        sorted_by_key(a),
        sorted_by_key(b),
        entries_of(a) == entries_of(b),
    ensures
        a == b,
    decreases a.len(),
{
    lemma_entries_listed(a);
    lemma_entries_listed(b);
    if a.len() == 0 {
        if b.len() > 0 {
            assert(entries_of(b).contains_key(b[0].asset));
        }
        assert(a =~= b);
    } else {
        assert(entries_of(a).contains_key(a[0].asset));
        if b.len() == 0 {
            assert(false);
        }
        assert(entries_of(b).contains_key(b[0].asset));
        let j = choose|j: int| 0 <= j < b.len() && b[j].asset == a[0].asset;
        let i = choose|i: int| 0 <= i < a.len() && a[i].asset == b[0].asset;
        if j > 0 {
            assert(chars_lt(b[0].asset, b[j].asset));
            if i > 0 {
                assert(chars_lt(a[0].asset, a[i].asset));
                lemma_chars_lt_transitive(a[0].asset, a[i].asset, a[0].asset);
            }
            lemma_chars_lt_irreflexive(a[0].asset);
        }
        assert(a[0] == b[0]);
        lemma_drop_first_entries(a);
        lemma_drop_first_entries(b);
        lemma_listing_determined(a.drop_first(), b.drop_first());
        assert(a =~= seq![a[0]] + a.drop_first());
        assert(b =~= seq![b[0]] + b.drop_first());
    }
}

/// The registry of collateral assets, kept in lexical order of their keys.
pub struct Registry {
    pub assets: Vec<CollateralAssetInfo>,
}

impl View for Registry {
    type V = Seq<AssetView>;

    open spec fn view(&self) -> Seq<AssetView> {
        self.assets@.map_values(|e: CollateralAssetInfo| e@)
    }
}

impl Registry {
    pub open spec fn wf(&self) -> bool {
        sorted_by_key(self@)
    }

    /// The registered entries, by asset key.
    pub open spec fn entries(&self) -> Map<Seq<char>, AssetView> {
        entries_of(self@)
    }

    pub fn new() -> (r: Registry)
        ensures
            r.wf(),
            r@.len() == 0,
            r.entries() == Map::<Seq<char>, AssetView>::empty(),
    {
        let r = Registry { assets: Vec::new() };
        assert(r.entries() =~= Map::<Seq<char>, AssetView>::empty());
        r
    }

    /// The position of `asset`, if it is registered.
    fn find(&self, asset: &String) -> (r: Option<usize>)
        requires
            self.wf(),
        ensures
            match r {
                Some(i) => i < self@.len() && self@[i as int].asset == asset@ && self.entries().contains_key(asset@) && self.entries()[asset@] == self@[i as int],
                None => !self.entries().contains_key(asset@) && forall|i: int| 0 <= i < self@.len() ==> (#[trigger] self@[i]).asset != asset@,
            },
    {
        let mut i: usize = 0;
        while i < self.assets.len()
            invariant
                self.wf(),
                i <= self@.len(),
                self@.len() == self.assets@.len(),
                forall|j: int| 0 <= j < i ==> (#[trigger] self@[j]).asset != asset@,
            decreases self.assets.len() - i,
        {
            if self.assets[i].asset == *asset {
                proof {
                    assert(self@[i as int] == self.assets@[i as int]@);
                    assert(0 <= i < self@.len());
                    assert(sorted_by_key(self@));
                    lemma_find_at(self@, i as int);
                }
                return Some(i);
            }
            i = i + 1;
        }
        proof {
            lemma_find_absent(self@, asset@);
        }
        None
    }

    /// Replaces the entry at `i` by one with the same key.
    fn put(&mut self, i: usize, info: CollateralAssetInfo)
        requires
            old(self).wf(),
            i < old(self)@.len(),
            info@.asset == old(self)@[i as int].asset,
        ensures
            final(self).wf(),
            final(self).entries() == old(self).entries().insert(info@.asset, info@),
    {
        let ghost v = info@;
        proof {
            lemma_replace_sorted(self@, i as int, v);
        }
        self.assets.set(i, info);
        assert(self@ =~= old(self)@.update(i as int, v));
    }

    /// Registers a new asset, not revoked; an asset that is registered already
    /// is refused and the registry stays as it was.
    pub fn register(&mut self, asset: String, price_source: SourceType, multiplier: Decimal) -> (r: Result<(), OracleError>)
        requires
            old(self).wf(),
        ensures
            final(self).wf(),
            (r, final(self).entries()) == registration(old(self).entries(), asset@, price_source, multiplier),
            r is Err ==> final(self)@ == old(self)@,
    {
        if self.find(&asset).is_some() {
            return Err(OracleError::DuplicateAsset);
        }
        let mut p: usize = 0;
        while p < self.assets.len() && !key_lt(&asset, &self.assets[p].asset)
            invariant
                self.wf(),
                p <= self@.len(),
                self@.len() == self.assets@.len(),
                forall|i: int| 0 <= i < self@.len() ==> (#[trigger] self@[i]).asset != asset@,
                forall|j: int| 0 <= j < p ==> chars_lt(#[trigger] self@[j].asset, asset@),
            decreases self.assets.len() - p,
        {
            proof {
                assert(self@[p as int].asset == self.assets@[p as int].asset@);
                lemma_chars_lt_total(asset@, self@[p as int].asset);
            }
            p = p + 1;
        }
        let info = CollateralAssetInfo { asset, price_source, multiplier, is_revoked: false };
        let ghost v = info@;
        proof {
            if p < self@.len() {
                assert(self@[p as int].asset == self.assets@[p as int].asset@);
            }
            lemma_insert_sorted(self@, p as int, v);
        }
        self.assets.insert(p, info);
        assert(self@ =~= old(self)@.insert(p as int, v));
        Ok(())
    }

    /// Marks a registered asset as revoked.
    pub fn revoke(&mut self, asset: &String) -> (r: Result<(), OracleError>)
        requires
            old(self).wf(),
        ensures
            final(self).wf(),
            (r, final(self).entries()) == amendment(old(self).entries(), asset@, |e: AssetView| revoked(e)),
            r is Err ==> final(self)@ == old(self)@,
    {
        match self.find(asset) {
            None => Err(OracleError::NotFound),
            Some(i) => {
                let mut info = self.assets[i].copy();
                info.is_revoked = true;
                self.put(i, info);
                Ok(())
            },
        }
    }

    /// Replaces the price source of a registered asset.
    pub fn update_source(&mut self, asset: &String, price_source: SourceType) -> (r: Result<(), OracleError>)
        requires
            old(self).wf(),
        ensures
            final(self).wf(),
            (r, final(self).entries()) == amendment(old(self).entries(), asset@, with_source(price_source)),
            r is Err ==> final(self)@ == old(self)@,
    {
        match self.find(asset) {
            None => Err(OracleError::NotFound),
            Some(i) => {
                let mut info = self.assets[i].copy();
                info.price_source = price_source;
                self.put(i, info);
                Ok(())
            },
        }
    }

    /// Replaces the multiplier of a registered asset.
    pub fn update_multiplier(&mut self, asset: &String, multiplier: Decimal) -> (r: Result<(), OracleError>)
        requires
            old(self).wf(),
        ensures
            final(self).wf(),
            (r, final(self).entries()) == amendment(old(self).entries(), asset@, with_multiplier(multiplier)),
            r is Err ==> final(self)@ == old(self)@,
    {
        match self.find(asset) {
            None => Err(OracleError::NotFound),
            Some(i) => {
                let mut info = self.assets[i].copy();
                info.multiplier = multiplier;
                self.put(i, info);
                Ok(())
            },
        }
    }

    /// The entry of a registered asset.
    pub fn get(&self, asset: &String) -> (r: Result<CollateralAssetInfo, OracleError>)
        requires
            self.wf(),
        ensures
            !self.entries().contains_key(asset@) ==> r is Err && r->Err_0 == OracleError::NotFound,
            self.entries().contains_key(asset@) ==> r is Ok && r->Ok_0@ == self.entries()[asset@],
    {
        match self.find(asset) {
            None => Err(OracleError::NotFound),
            Some(i) => Ok(self.assets[i].copy()),
        }
    }
}

/// Inserting an entry with a new key between smaller and larger keys keeps
/// the order and adds exactly that entry.
proof fn lemma_insert_sorted(s: Seq<AssetView>, p: int, e: AssetView)
    requires
        sorted_by_key(s),
        0 <= p <= s.len(),
        forall|j: int| 0 <= j < p ==> chars_lt(#[trigger] s[j].asset, e.asset),
        p < s.len() ==> chars_lt(e.asset, s[p].asset),
    ensures
        sorted_by_key(s.insert(p, e)),
        entries_of(s.insert(p, e)) == entries_of(s).insert(e.asset, e),
{
    let n = s.insert(p, e);
    assert forall|j: int| p <= j < s.len() implies chars_lt(e.asset, #[trigger] s[j].asset) by {
        if j > p {
            lemma_chars_lt_transitive(e.asset, s[p].asset, s[j].asset);
        }
    }
    assert forall|a: int, b: int| 0 <= a < b < n.len() implies chars_lt(#[trigger] n[a].asset, #[trigger] n[b].asset) by {
        if b < p {
        } else if b == p {
        } else if a < p {
            assert(n[b] == s[b - 1]);
            lemma_chars_lt_transitive(s[a].asset, e.asset, s[b - 1].asset);
        } else if a == p {
            assert(n[b] == s[b - 1]);
        } else {
            assert(n[a] == s[a - 1] && n[b] == s[b - 1]);
        }
    }
    let f = |i: int| if i < p { i } else { i + 1 };
    assert forall|i: int| 0 <= i < s.len() implies 0 <= #[trigger] f(i) < n.len() && n[f(i)] == s[i] by {
        if i >= p {
            assert(n[i + 1] == s[i]);
        }
    }
    assert forall|q: Seq<char>| #[trigger] find_entry(n, q) == (if q == e.asset { Some(e) } else { find_entry(s, q) }) by {
        if q == e.asset {
            assert(n[p] == e);
            lemma_find_at(n, p);
        } else {
            assert forall|j: int| 0 <= j < n.len() && (#[trigger] n[j]).asset == q implies exists|i: int| 0 <= i < s.len() && #[trigger] f(i) == j by {
                if j < p {
                    assert(f(j) == j);
                } else {
                    assert(f(j - 1) == j);
                }
            }
            lemma_same_keys_same_find(s, n, q, f);
        }
    }
    assert(entries_of(n) =~= entries_of(s).insert(e.asset, e));
}

/// Replacing an entry by one with the same key keeps the order and changes
/// exactly that entry.
proof fn lemma_replace_sorted(s: Seq<AssetView>, p: int, e: AssetView)
    requires
        sorted_by_key(s),
        0 <= p < s.len(),
        s[p].asset == e.asset,
    ensures
        sorted_by_key(s.update(p, e)),
        entries_of(s.update(p, e)) == entries_of(s).insert(e.asset, e),
{
    let n = s.update(p, e);
    assert forall|a: int, b: int| 0 <= a < b < n.len() implies chars_lt(#[trigger] n[a].asset, #[trigger] n[b].asset) by {
        assert(n[a].asset == s[a].asset && n[b].asset == s[b].asset);
    }
    let f = |i: int| i;
    assert forall|i: int| 0 <= i < s.len() implies 0 <= #[trigger] f(i) < n.len() && n[f(i)].asset == s[i].asset && (i != p ==> n[f(i)] == s[i]) by {
    }
    assert forall|q: Seq<char>| #[trigger] find_entry(n, q) == (if q == e.asset { Some(e) } else { find_entry(s, q) }) by {
        if q == e.asset {
            lemma_find_at(n, p);
        } else {
            assert forall|j: int| 0 <= j < n.len() && (#[trigger] n[j]).asset == q implies exists|i: int| 0 <= i < s.len() && #[trigger] f(i) == j by {
                assert(f(j) == j);
            }
            lemma_same_keys_same_find(s, n, q, f);
        }
    }
    assert(entries_of(n) =~= entries_of(s).insert(e.asset, e));
}

} // verus!
