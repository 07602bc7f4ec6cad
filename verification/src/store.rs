//! The reference semantics of the storage capability set.
//!
//! A backend's visible state is modeled as a map from normalized container
//! names to maps from normalized item names to byte contents. The spec
//! functions here say what each operation does to that state — idempotent
//! container creation, overwrite on write, cascading delete — and the proof
//! functions state the laws every adapter is meant to satisfy. `StoreModel`
//! is an executable in-memory realization of exactly these semantics, used
//! to exercise them in tests.

use vstd::prelude::*;

use crate::error::StowError;
use crate::normalize::{find_dot, norm_item_name, norm_name, streamline, streamline_item};

verus! {

/// The visible state of one backend: container name -> item name -> bytes.
pub type StoreView = Map<Seq<char>, Map<Seq<char>, Seq<u8>>>;

/// Whether a raw item name carries the required type suffix.
pub open spec fn valid_item(name: Seq<char>) -> bool {
    find_dot(name) is Some
}

/// Creating a container normalizes its name and is idempotent: an existing
/// container is left as it is, with its items.
pub open spec fn store_create_container(m: StoreView, name: Seq<char>, sep: char) -> StoreView {
    let n = norm_name(name, sep);
    if m.dom().contains(n) {
        m
    } else {
        m.insert(n, Map::empty())
    }
}

/// Removing a container removes it with every item it holds.
pub open spec fn store_remove_container(m: StoreView, name: Seq<char>, sep: char) -> StoreView {
    m.remove(norm_name(name, sep))
}

/// Writing an item creates or overwrites it under its normalized name. A
/// name without a type suffix, or a missing container, changes nothing.
pub open spec fn store_create_item(
    m: StoreView,
    container: Seq<char>,
    item: Seq<char>,
    data: Seq<u8>,
    sep: char,
) -> StoreView {
    let n = norm_name(container, sep);
    let i = norm_item_name(item, sep);
    if valid_item(item) && m.dom().contains(n) {
        m.insert(n, m[n].insert(i, data))
    } else {
        m
    }
}

/// Reading an item yields its current content; a name without a type suffix
/// is rejected before the state is consulted, anything missing is not found.
pub open spec fn store_read_item(
    m: StoreView,
    container: Seq<char>,
    item: Seq<char>,
    sep: char,
) -> Result<Seq<u8>, StowError> {
    let n = norm_name(container, sep);
    let i = norm_item_name(item, sep);
    if !valid_item(item) {
        Err(StowError::ItemTypMissing)
    } else if m.dom().contains(n) && m[n].dom().contains(i) {
        Ok(m[n][i])
    } else {
        Err(StowError::NotFound)
    }
}

/// Removing an item removes exactly that entry.
pub open spec fn store_remove_item(
    m: StoreView,
    container: Seq<char>,
    item: Seq<char>,
    sep: char,
) -> StoreView {
    let n = norm_name(container, sep);
    let i = norm_item_name(item, sep);
    if valid_item(item) && m.dom().contains(n) {
        m.insert(n, m[n].remove(i))
    } else {
        m
    }
}

/// Creating a container twice in succession is the same as creating it
/// once: the second creation sees the container and leaves the state alone.
pub proof fn lemma_create_container_idempotent(m: StoreView, name: Seq<char>, sep: char)
    ensures
        store_create_container(store_create_container(m, name, sep), name, sep)
            == store_create_container(m, name, sep),
{
    let n = norm_name(name, sep);
    if !m.dom().contains(n) {
        assert(m.insert(n, Map::empty()).dom().contains(n));
    }
}

/// Writing under an item name without a type suffix changes no state: the
/// rejection happens before any write.
pub proof fn lemma_create_item_no_suffix_unchanged(
    m: StoreView,
    container: Seq<char>,
    item: Seq<char>,
    data: Seq<u8>,
    sep: char,
)
    requires
        find_dot(item) is None,
    ensures
        store_create_item(m, container, item, data, sep) == m,
        store_read_item(m, container, item, sep) == Err::<Seq<u8>, StowError>(
            StowError::ItemTypMissing,
        ),
{
}

/// Round trip: writing bytes to an item of an existing container and then
/// reading the same raw item name back yields exactly the written bytes.
pub proof fn lemma_round_trip(
    m: StoreView,
    container: Seq<char>,
    item: Seq<char>,
    data: Seq<u8>,
    sep: char,
)
    requires
        m.dom().contains(norm_name(container, sep)),
        find_dot(item) is Some,
    ensures
        store_read_item(store_create_item(m, container, item, data, sep), container, item, sep)
            == Ok::<Seq<u8>, StowError>(data),
{
}

/// Overwrite: writing twice to the same item leaves the state the second
/// write alone would have left; nothing of the first write remains.
pub proof fn lemma_overwrite(
    m: StoreView,
    container: Seq<char>,
    item: Seq<char>,
    d1: Seq<u8>,
    d2: Seq<u8>,
    sep: char,
)
    ensures
        store_create_item(store_create_item(m, container, item, d1, sep), container, item, d2, sep)
            == store_create_item(m, container, item, d2, sep),
{
    let n = norm_name(container, sep);
    let i = norm_item_name(item, sep);
    if valid_item(item) && m.dom().contains(n) {
        let m1 = m.insert(n, m[n].insert(i, d1));
        assert(m1.dom().contains(n));
        assert(m1[n] == m[n].insert(i, d1));
        assert(m1.insert(n, m1[n].insert(i, d2)) =~~= m.insert(n, m[n].insert(i, d2)));
    }
}

/// Cascading delete: after a container is removed, reading any item of it
/// under the same raw container name fails — with the type-suffix rejection
/// where the item name carries no suffix, and with not-found otherwise.
pub proof fn lemma_cascading_delete(
    m: StoreView,
    container: Seq<char>,
    item: Seq<char>,
    sep: char,
)
    ensures
        store_read_item(store_remove_container(m, container, sep), container, item, sep) == Err::<
            Seq<u8>,
            StowError,
        >(
            if valid_item(item) {
                StowError::NotFound
            } else {
                StowError::ItemTypMissing
            },
        ),
{
}

/// One stored item: a normalized name and its bytes.
pub struct ItemEntry {
    pub name: String,
    pub data: Vec<u8>,
}

/// One container: a normalized name and the items it holds.
pub struct ContainerEntry {
    pub name: String,
    pub items: Vec<ItemEntry>,
}

/// An executable in-memory realization of the reference semantics, with the
/// hyphen separator every current backend uses.
pub struct StoreModel {
    containers: Vec<ContainerEntry>,
}

/// The map an item list denotes; a later entry would win, though
/// well-formed lists hold each name once.
pub open spec fn items_view(s: Seq<ItemEntry>) -> Map<Seq<char>, Seq<u8>>
    decreases s.len(),
{
    if s.len() == 0 {
        Map::empty()
    } else {
        items_view(s.drop_last()).insert(s.last().name@, s.last().data@)
    }
}

/// The map a container list denotes.
pub open spec fn containers_view(s: Seq<ContainerEntry>) -> StoreView
    decreases s.len(),
{
    if s.len() == 0 {
        Map::empty()
    } else {
        containers_view(s.drop_last()).insert(s.last().name@, items_view(s.last().items@))
    }
}

impl View for StoreModel {
    type V = StoreView;

    closed spec fn view(&self) -> StoreView {
        containers_view(self.containers@)
    }
}

/// Each item name occurs at most once.
pub open spec fn distinct_items(s: Seq<ItemEntry>) -> bool {
    forall|p: int, q: int| 0 <= p < q < s.len() ==> s[p].name@ != s[q].name@
}

/// Each container name occurs at most once.
pub open spec fn distinct_containers(s: Seq<ContainerEntry>) -> bool {
    forall|p: int, q: int| 0 <= p < q < s.len() ==> s[p].name@ != s[q].name@
}

/// The listing `names` holds exactly the keys of `m`: no duplicates, every
/// entry a key, every key an entry.
pub open spec fn names_cover<V>(names: Seq<String>, m: Map<Seq<char>, V>) -> bool {
    &&& forall|p: int, q: int| 0 <= p < q < names.len() ==> names[p]@ != names[q]@
    &&& forall|p: int| 0 <= p < names.len() ==> m.dom().contains(#[trigger] names[p]@)
    &&& forall|k: Seq<char>|
        #[trigger] m.dom().contains(k) ==> exists|p: int| 0 <= p < names.len() && names[p]@ == k
}

impl StoreModel {
    /// Container names are pairwise distinct, and item names are pairwise
    /// distinct within each container.
    pub closed spec fn wf(&self) -> bool {
        &&& distinct_containers(self.containers@)
        &&& forall|p: int|
            0 <= p < self.containers@.len() ==> distinct_items(
                #[trigger] self.containers@[p].items@,
            )
    }
}

proof fn lemma_items_view_dom(s: Seq<ItemEntry>)
    ensures
        forall|k: Seq<char>|
            #[trigger] items_view(s).dom().contains(k) <==> exists|p: int|
                0 <= p < s.len() && s[p].name@ == k,
    decreases s.len(),
{
    if s.len() > 0 {
        lemma_items_view_dom(s.drop_last());
        assert forall|k: Seq<char>| #[trigger]
            items_view(s).dom().contains(k) implies exists|p: int|
            0 <= p < s.len() && s[p].name@ == k by {
            if k == s.last().name@ {
                assert(s[s.len() - 1].name@ == k);
            } else {
                assert(items_view(s.drop_last()).dom().contains(k));
                let p = choose|p: int| 0 <= p < s.drop_last().len() && s.drop_last()[p].name@ == k;
                assert(s.drop_last()[p] == s[p]);
                assert(s[p].name@ == k);
            }
        }
        assert forall|k: Seq<char>|
            (exists|p: int| 0 <= p < s.len() && s[p].name@ == k) implies #[trigger] items_view(
            s,
        ).dom().contains(k) by {
            let p = choose|p: int| 0 <= p < s.len() && s[p].name@ == k;
            if p < s.len() - 1 {
                assert(s.drop_last()[p].name@ == k);
                assert(items_view(s.drop_last()).dom().contains(k));
            } else {
                assert(k == s.last().name@);
            }
            assert(items_view(s).dom().contains(k));
        }
    }
}

proof fn lemma_items_view_get(s: Seq<ItemEntry>, p: int)
    requires
        distinct_items(s),
        0 <= p < s.len(),
    ensures
        items_view(s).dom().contains(s[p].name@),
        items_view(s)[s[p].name@] == s[p].data@,
    decreases s.len(),
{
    if p < s.len() - 1 {
        assert(s.drop_last()[p] == s[p]);
        lemma_items_view_get(s.drop_last(), p);
        assert(s[p].name@ != s.last().name@);
    }
}

proof fn lemma_containers_view_dom(s: Seq<ContainerEntry>)
    ensures
        forall|k: Seq<char>|
            #[trigger] containers_view(s).dom().contains(k) <==> exists|p: int|
                0 <= p < s.len() && s[p].name@ == k,
    decreases s.len(),
{
    if s.len() > 0 {
        lemma_containers_view_dom(s.drop_last());
        assert forall|k: Seq<char>| #[trigger]
            containers_view(s).dom().contains(k) implies exists|p: int|
            0 <= p < s.len() && s[p].name@ == k by {
            if k == s.last().name@ {
                assert(s[s.len() - 1].name@ == k);
            } else {
                assert(containers_view(s.drop_last()).dom().contains(k));
                let p = choose|p: int| 0 <= p < s.drop_last().len() && s.drop_last()[p].name@ == k;
                assert(s.drop_last()[p] == s[p]);
                assert(s[p].name@ == k);
            }
        }
        assert forall|k: Seq<char>|
            (exists|p: int| 0 <= p < s.len() && s[p].name@ == k) implies #[trigger] containers_view(
            s,
        ).dom().contains(k) by {
            let p = choose|p: int| 0 <= p < s.len() && s[p].name@ == k;
            if p < s.len() - 1 {
                assert(s.drop_last()[p].name@ == k);
                assert(containers_view(s.drop_last()).dom().contains(k));
            } else {
                assert(k == s.last().name@);
            }
            assert(containers_view(s).dom().contains(k));
        }
    }
}

proof fn lemma_containers_view_get(s: Seq<ContainerEntry>, p: int)
    requires
        distinct_containers(s),
        0 <= p < s.len(),
    ensures
        containers_view(s).dom().contains(s[p].name@),
        containers_view(s)[s[p].name@] == items_view(s[p].items@),
    decreases s.len(),
{
    if p < s.len() - 1 {
        assert(s.drop_last()[p] == s[p]);
        lemma_containers_view_get(s.drop_last(), p);
        assert(s[p].name@ != s.last().name@);
    }
}

proof fn lemma_items_view_remove(s: Seq<ItemEntry>, p: int)
    requires
        distinct_items(s),
        0 <= p < s.len(),
    ensures
        items_view(s.remove(p)) =~= items_view(s).remove(s[p].name@),
        distinct_items(s.remove(p)),
    decreases s.len(),
{
    assert forall|a: int, b: int| 0 <= a < b < s.remove(p).len() implies s.remove(p)[a].name@
        != s.remove(p)[b].name@ by {
        assert(s.remove(p)[a] == if a < p {
            s[a]
        } else {
            s[a + 1]
        });
        assert(s.remove(p)[b] == if b < p {
            s[b]
        } else {
            s[b + 1]
        });
    }
    if p == s.len() - 1 {
        assert(s.remove(p) =~= s.drop_last());
        lemma_items_view_dom(s.drop_last());
        assert(!items_view(s.drop_last()).dom().contains(s[p].name@));
        assert(items_view(s.drop_last()).remove(s[p].name@) =~= items_view(s.drop_last()));
    } else {
        lemma_items_view_remove(s.drop_last(), p);
        assert(s.remove(p).drop_last() =~= s.drop_last().remove(p));
        assert(s.remove(p).last() == s.last());
        assert(s.drop_last()[p] == s[p]);
        assert(s[p].name@ != s.last().name@);
    }
}

proof fn lemma_containers_view_remove(s: Seq<ContainerEntry>, p: int)
    requires
        distinct_containers(s),
        0 <= p < s.len(),
    ensures
        containers_view(s.remove(p)) =~= containers_view(s).remove(s[p].name@),
        distinct_containers(s.remove(p)),
    decreases s.len(),
{
    assert forall|a: int, b: int| 0 <= a < b < s.remove(p).len() implies s.remove(p)[a].name@
        != s.remove(p)[b].name@ by {
        assert(s.remove(p)[a] == if a < p {
            s[a]
        } else {
            s[a + 1]
        });
        assert(s.remove(p)[b] == if b < p {
            s[b]
        } else {
            s[b + 1]
        });
    }
    if p == s.len() - 1 {
        assert(s.remove(p) =~= s.drop_last());
        lemma_containers_view_dom(s.drop_last());
        assert(!containers_view(s.drop_last()).dom().contains(s[p].name@));
        assert(containers_view(s.drop_last()).remove(s[p].name@) =~= containers_view(
            s.drop_last(),
        ));
    } else {
        lemma_containers_view_remove(s.drop_last(), p);
        assert(s.remove(p).drop_last() =~= s.drop_last().remove(p));
        assert(s.remove(p).last() == s.last());
        assert(s.drop_last()[p] == s[p]);
        assert(s[p].name@ != s.last().name@);
    }
}

/// Find the index holding `name`, if any.
fn find_container(v: &Vec<ContainerEntry>, name: &String) -> (r: Option<usize>)
    ensures
        match r {
            Some(p) => p < v@.len() && v@[p as int].name@ == name@,
            None => forall|q: int| 0 <= q < v@.len() ==> v@[q].name@ != name@,
        },
{
    let mut p: usize = 0;
    while p < v.len()
        invariant
            p <= v@.len(),
            forall|q: int| 0 <= q < p ==> v@[q].name@ != name@,
        decreases v@.len() - p,
    {
        if v[p].name == *name {
            return Some(p);
        }
        p += 1;
    }
    None
}

/// Find the index holding `name`, if any.
fn find_item(v: &Vec<ItemEntry>, name: &String) -> (r: Option<usize>)
    ensures
        match r {
            Some(p) => p < v@.len() && v@[p as int].name@ == name@,
            None => forall|q: int| 0 <= q < v@.len() ==> v@[q].name@ != name@,
        },
{
    let mut p: usize = 0;
    while p < v.len()
        invariant
            p <= v@.len(),
            forall|q: int| 0 <= q < p ==> v@[q].name@ != name@,
        decreases v@.len() - p,
    {
        if v[p].name == *name {
            return Some(p);
        }
        p += 1;
    }
    None
}

/// Byte-for-byte copy of a stored blob.
fn copy_bytes(src: &Vec<u8>) -> (r: Vec<u8>)
    ensures
        r@ == src@,
{
    let mut out: Vec<u8> = Vec::new();
    let mut k: usize = 0;
    while k < src.len()
        invariant
            k <= src@.len(),
            out@ == src@.take(k as int),
        decreases src@.len() - k,
    {
        out.push(src[k]);
        proof {
            assert(src@.take(k + 1 as int) =~= src@.take(k as int).push(src@[k as int]));
        }
        k += 1;
    }
    proof {
        assert(src@.take(src@.len() as int) =~= src@);
    }
    out
}

impl StoreModel {
    /// An empty store: no containers, no items.
    pub fn new() -> (r: Self)
        ensures
            r.wf(),
            r@ == Map::<Seq<char>, Map<Seq<char>, Seq<u8>>>::empty(),
    {
        StoreModel { containers: Vec::new() }
    }

    /// List the container names, unordered and without duplicates.
    pub fn containers(&self) -> (r: Vec<String>)
        requires
            self.wf(),
        ensures
            names_cover(r@, self@),
    {
        proof {
            lemma_containers_view_dom(self.containers@);
        }
        let mut out: Vec<String> = Vec::new();
        let mut p: usize = 0;
        while p < self.containers.len()
            invariant
                p <= self.containers@.len(),
                out@.len() == p,
                forall|q: int| 0 <= q < p ==> out@[q]@ == self.containers@[q].name@,
            decreases self.containers@.len() - p,
        {
            out.push(self.containers[p].name.clone());
            p += 1;
        }
        proof {
            assert forall|a: int, b: int| 0 <= a < b < out@.len() implies out@[a]@ != out@[b]@ by {
                assert(out@[a]@ == self.containers@[a].name@);
                assert(out@[b]@ == self.containers@[b].name@);
            }
            assert forall|a: int| 0 <= a < out@.len() implies self@.dom().contains(
                #[trigger] out@[a]@,
            ) by {
                assert(self.containers@[a].name@ == out@[a]@);
            }
            assert forall|k: Seq<char>| #[trigger]
                self@.dom().contains(k) implies exists|a: int|
                0 <= a < out@.len() && out@[a]@ == k by {
                let a = choose|a: int|
                    0 <= a < self.containers@.len() && self.containers@[a].name@ == k;
                assert(out@[a]@ == k);
            }
            assert(names_cover(out@, self@));
        }
        out
    }

    /// Create a container under the normalized name; creating one that
    /// exists is not an error and leaves it untouched.
    pub fn create_container(&mut self, container: &str) -> (r: Result<(), StowError>)
        requires
            old(self).wf(),
        ensures
            final(self).wf(),
            r is Ok,
            final(self)@ == store_create_container(old(self)@, container@, '-'),
    {
        let n = streamline(container);
        proof {
            lemma_containers_view_dom(self.containers@);
        }
        match find_container(&self.containers, &n) {
            Some(_) => Ok(()),
            None => {
                let ghost s0 = self.containers@;
                self.containers.push(ContainerEntry { name: n, items: Vec::new() });
                proof {
                    assert(self.containers@.drop_last() =~= s0);
                    assert(forall|q: int| 0 <= q < s0.len() ==> s0[q].name@ != norm_name(
                        container@,
                        '-',
                    ));
                    assert(distinct_containers(self.containers@));
                    assert(forall|p: int|
                        0 <= p < s0.len() ==> self.containers@[p] == s0[p]);
                    assert(self.containers@.last().items@ =~= Seq::<ItemEntry>::empty());
                    assert(items_view(self.containers@.last().items@) =~= Map::<
                        Seq<char>,
                        Seq<u8>,
                    >::empty());
                }
                Ok(())
            },
        }
    }

    /// Remove a container and every item it holds; removing one that does
    /// not exist is an error and changes nothing.
    pub fn remove_container(&mut self, container: &str) -> (r: Result<(), StowError>)
        requires
            old(self).wf(),
        ensures
            final(self).wf(),
            final(self)@ == store_remove_container(old(self)@, container@, '-'),
            r is Ok <==> old(self)@.dom().contains(norm_name(container@, '-')),
            r is Err ==> r == Err::<(), StowError>(StowError::NotFound) && final(self)@ == old(
                self,
            )@,
    {
        let n = streamline(container);
        proof {
            lemma_containers_view_dom(self.containers@);
        }
        match find_container(&self.containers, &n) {
            Some(p) => {
                proof {
                    lemma_containers_view_remove(self.containers@, p as int);
                }
                self.containers.remove(p);
                Ok(())
            },
            None => {
                proof {
                    assert(!old(self)@.dom().contains(norm_name(container@, '-')));
                    assert(old(self)@.remove(norm_name(container@, '-')) =~= old(self)@);
                }
                Err(StowError::NotFound)
            },
        }
    }

    /// List the item names of a container, unordered and without
    /// duplicates.
    #[verifier::rlimit(50)]
    pub fn items(&self, container: &str) -> (r: Result<Vec<String>, StowError>)
        requires
            self.wf(),
        ensures
            r is Ok <==> self@.dom().contains(norm_name(container@, '-')),
            r is Err ==> r == Err::<Vec<String>, StowError>(StowError::NotFound),
            r is Ok ==> names_cover(r->Ok_0@, self@[norm_name(container@, '-')]),
    {
        let n = streamline(container);
        proof {
            lemma_containers_view_dom(self.containers@);
        }
        match find_container(&self.containers, &n) {
            None => Err(StowError::NotFound),
            Some(p) => {
                let entry = &self.containers[p];
                proof {
                    lemma_containers_view_get(self.containers@, p as int);
                    assert(self.containers@[p as int] == *entry);
                    lemma_items_view_dom(entry.items@);
                }
                let mut out: Vec<String> = Vec::new();
                let mut q: usize = 0;
                while q < entry.items.len()
                    invariant
                        q <= entry.items@.len(),
                        out@.len() == q,
                        forall|t: int| 0 <= t < q ==> out@[t]@ == entry.items@[t].name@,
                    decreases entry.items@.len() - q,
                {
                    out.push(entry.items[q].name.clone());
                    q += 1;
                }
                proof {
                    assert(distinct_items(entry.items@));
                    let ghost n = norm_name(container@, '-');
                    assert(self@[n] == items_view(entry.items@));
                    assert forall|a: int, b: int| 0 <= a < b < out@.len() implies out@[a]@
                        != out@[b]@ by {
                        assert(out@[a]@ == entry.items@[a].name@);
                        assert(out@[b]@ == entry.items@[b].name@);
                    }
                    assert forall|a: int| 0 <= a < out@.len() implies self@[n].dom().contains(
                        #[trigger] out@[a]@,
                    ) by {
                        assert(entry.items@[a].name@ == out@[a]@);
                    }
                    assert forall|k: Seq<char>| #[trigger]
                        self@[n].dom().contains(k) implies exists|a: int|
                        0 <= a < out@.len() && out@[a]@ == k by {
                        assert(items_view(entry.items@).dom().contains(k));
                        let a = choose|a: int|
                            0 <= a < entry.items@.len() && entry.items@[a].name@ == k;
                        assert(out@[a]@ == k);
                    }
                    assert(names_cover(out@, self@[n]));
                }
                Ok(out)
            },
        }
    }

    /// Create or overwrite an item. An item name without a type suffix is
    /// rejected before the state is touched; a missing container is not
    /// found; otherwise the bytes are stored under the normalized names.
    pub fn create_item(&mut self, container: &str, item: &str, data: Vec<u8>) -> (r: Result<
        (),
        StowError,
    >)
        requires
            old(self).wf(),
        ensures
            final(self).wf(),
            final(self)@ == store_create_item(old(self)@, container@, item@, data@, '-'),
            match r {
                Ok(_) => find_dot(item@) is Some && old(self)@.dom().contains(
                    norm_name(container@, '-'),
                ),
                Err(e) => final(self)@ == old(self)@ && ((find_dot(item@) is None && e
                    == StowError::ItemTypMissing) || (find_dot(item@) is Some && !old(
                    self,
                )@.dom().contains(norm_name(container@, '-')) && e == StowError::NotFound)),
            },
    {
        let ghost d = data@;
        let ni = match streamline_item(item) {
            Ok(s) => s,
            Err(e) => {
                return Err(e);
            },
        };
        let ghost niv = ni@;
        let nc = streamline(container);
        proof {
            lemma_containers_view_dom(self.containers@);
        }
        match find_container(&self.containers, &nc) {
            None => Err(StowError::NotFound),
            Some(p) => {
                let ghost s0 = self.containers@;
                let ghost olditems = s0[p as int].items@;
                proof {
                    lemma_containers_view_get(s0, p as int);
                }
                let mut entry = self.containers.remove(p);
                match find_item(&entry.items, &ni) {
                    Some(q) => {
                        proof {
                            lemma_items_view_remove(olditems, q as int);
                        }
                        entry.items.remove(q);
                        proof {
                            assert forall|t: int| 0 <= t < entry.items@.len() implies entry.items@[t].name@
                                != niv by {
                                assert(entry.items@[t] == if t < q {
                                    olditems[t]
                                } else {
                                    olditems[t + 1]
                                });
                            }
                        }
                    },
                    None => {
                        proof {
                            lemma_items_view_dom(olditems);
                            assert(!items_view(olditems).dom().contains(niv));
                        }
                    },
                }
                let ghost mid = entry.items@;
                proof {
                    assert(distinct_items(mid));
                    assert(items_view(mid) =~= items_view(olditems).remove(niv));
                }
                entry.items.push(ItemEntry { name: ni, data });
                proof {
                    assert(entry.items@.drop_last() =~= mid);
                    assert(entry.items@.last().name@ == niv);
                    assert(entry.items@.last().data@ == d);
                    assert(distinct_items(entry.items@));
                    assert(items_view(entry.items@) =~= items_view(olditems).insert(niv, d));
                }
                let ghost e1 = entry;
                self.containers.insert(p, entry);
                proof {
                    assert(self.containers@ =~= s0.update(p as int, e1));
                    lemma_containers_view_update(s0, p as int, e1);
                    assert(self@ =~~= store_create_item(old(self)@, container@, item@, d, '-'));
                }
                Ok(())
            },
        }
    }

    /// Read an item's bytes. An item name without a type suffix is rejected
    /// first; a missing container or item is not found.
    pub fn read_item(&self, container: &str, item: &str) -> (r: Result<Vec<u8>, StowError>)
        requires
            self.wf(),
        ensures
            (match r {
                Ok(v) => Ok(v@),
                Err(e) => Err(e),
            }) == store_read_item(self@, container@, item@, '-'),
    {
        let ni = match streamline_item(item) {
            Ok(s) => s,
            Err(e) => {
                return Err(e);
            },
        };
        let nc = streamline(container);
        proof {
            lemma_containers_view_dom(self.containers@);
        }
        match find_container(&self.containers, &nc) {
            None => Err(StowError::NotFound),
            Some(p) => {
                let entry = &self.containers[p];
                proof {
                    lemma_containers_view_get(self.containers@, p as int);
                    assert(self.containers@[p as int] == *entry);
                    lemma_items_view_dom(entry.items@);
                }
                match find_item(&entry.items, &ni) {
                    None => Err(StowError::NotFound),
                    Some(q) => {
                        proof {
                            lemma_items_view_get(entry.items@, q as int);
                        }
                        Ok(copy_bytes(&entry.items[q].data))
                    },
                }
            },
        }
    }

    /// Remove an item. An item name without a type suffix is rejected
    /// first; a missing container or item is not found.
    pub fn remove_item(&mut self, container: &str, item: &str) -> (r: Result<(), StowError>)
        requires
            old(self).wf(),
        ensures
            final(self).wf(),
            final(self)@ == store_remove_item(old(self)@, container@, item@, '-'),
            match r {
                Ok(_) => find_dot(item@) is Some && old(self)@.dom().contains(
                    norm_name(container@, '-'),
                ) && old(self)@[norm_name(container@, '-')].dom().contains(
                    norm_item_name(item@, '-'),
                ),
                Err(e) => final(self)@ == old(self)@ && ((find_dot(item@) is None && e
                    == StowError::ItemTypMissing) || (find_dot(item@) is Some && e
                    == StowError::NotFound && !(old(self)@.dom().contains(norm_name(container@, '-'))
                    && old(self)@[norm_name(container@, '-')].dom().contains(
                    norm_item_name(item@, '-'),
                )))),
            },
    {
        let ni = match streamline_item(item) {
            Ok(s) => s,
            Err(e) => {
                return Err(e);
            },
        };
        let nc = streamline(container);
        proof {
            lemma_containers_view_dom(self.containers@);
        }
        let ghost niv = ni@;
        match find_container(&self.containers, &nc) {
            None => Err(StowError::NotFound),
            Some(p) => {
                let ghost s0 = self.containers@;
                let ghost olditems = s0[p as int].items@;
                proof {
                    lemma_containers_view_get(s0, p as int);
                    lemma_items_view_dom(olditems);
                }
                let mut entry = self.containers.remove(p);
                match find_item(&entry.items, &ni) {
                    None => {
                        self.containers.insert(p, entry);
                        proof {
                            assert(self.containers@ =~= s0);
                            assert(!items_view(olditems).dom().contains(niv));
                            assert(old(self)@[norm_name(container@, '-')].remove(niv) =~= old(
                                self,
                            )@[norm_name(container@, '-')]);
                            assert(self@ =~~= store_remove_item(old(self)@, container@, item@, '-'));
                        }
                        Err(StowError::NotFound)
                    },
                    Some(q) => {
                        proof {
                            lemma_items_view_remove(olditems, q as int);
                            lemma_items_view_get(olditems, q as int);
                        }
                        entry.items.remove(q);
                        let ghost e1 = entry;
                        self.containers.insert(p, entry);
                        proof {
                            assert(self.containers@ =~= s0.update(p as int, e1));
                            lemma_containers_view_update(s0, p as int, e1);
                            assert(self@ =~~= store_remove_item(old(self)@, container@, item@, '-'));
                        }
                        Ok(())
                    },
                }
            },
        }
    }
}

/// Updating the entry at `p` with one of the same name updates exactly that
/// binding of the denoted map.
proof fn lemma_containers_view_update(s: Seq<ContainerEntry>, p: int, e: ContainerEntry)
    requires
        distinct_containers(s),
        0 <= p < s.len(),
        e.name@ == s[p].name@,
    ensures
        containers_view(s.update(p, e)) =~= containers_view(s).insert(
            e.name@,
            items_view(e.items@),
        ),
        distinct_containers(s.update(p, e)),
    decreases s.len(),
{
    if p == s.len() - 1 {
        assert(s.update(p, e).drop_last() =~= s.drop_last());
        assert(s.update(p, e).last() == e);
        lemma_containers_view_dom(s.drop_last());
        assert(!containers_view(s.drop_last()).dom().contains(s[p].name@));
    } else {
        lemma_containers_view_update(s.drop_last(), p, e);
        assert(s.update(p, e).drop_last() =~= s.drop_last().update(p, e));
        assert(s.update(p, e).last() == s.last());
        assert(s[p].name@ != s.last().name@);
    }
}

} // verus!
