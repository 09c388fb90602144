use vstd::prelude::*;

use crate::delivery::Publication;
use crate::delivery::RecordView;
use crate::errors::RegistryError;
use crate::validate::is_valid_product_type;
use crate::validate::is_valid_url;
use crate::validate::valid_product_type;
use crate::validate::valid_url;

verus! {

/// The record a subscription yields: the topic and the callback URL the
/// subscriber is registered under.
#[derive(Debug)]
pub struct Subscriber {
    pub product_type: String,
    pub url: String,
}

/// One topic: its key and the callback URLs registered under it, in
/// insertion order.
struct Topic {
    name: String,
    urls: Vec<String>,
}

/// The views of a sequence of URL strings.
pub open spec fn url_views(urls: Seq<String>) -> Seq<Seq<char>> {
    urls.map_values(|u: String| u@)
}

/// The topic at index `i` of `ts` is keyed by `pt`.
spec fn topic_at(ts: Seq<Topic>, pt: Seq<char>, i: int) -> bool {
    0 <= i < ts.len() && ts[i].name@ == pt
}

/// No two topics share a key.
spec fn unique_names(ts: Seq<Topic>) -> bool {
    forall|i: int, j: int|
        0 <= i < j < ts.len() ==> (#[trigger] ts[i].name)@ != (#[trigger] ts[j].name)@
}

/// No URL occurs twice in one topic's list.
spec fn urls_distinct(urls: Seq<String>) -> bool {
    forall|k1: int, k2: int|
        0 <= k1 < k2 < urls.len() ==> (#[trigger] urls[k1])@ != (#[trigger] urls[k2])@
}

/// The URLs registered under `pt` in `ts`, or the empty sequence if no
/// topic is keyed by `pt`.
spec fn lookup(ts: Seq<Topic>, pt: Seq<char>) -> Seq<Seq<char>> {
    if exists|i: int| #[trigger] topic_at(ts, pt, i) {
        url_views(ts[choose|i: int| #[trigger] topic_at(ts, pt, i)].urls@)
    } else {
        Seq::empty()
    }
}

/// The abstract registry a sequence of topics denotes: a total map from
/// product type to the URLs registered under it.
spec fn topics_view(ts: Seq<Topic>) -> Map<Seq<char>, Seq<Seq<char>>> {
    Map::new(|pt: Seq<char>| true, |pt: Seq<char>| lookup(ts, pt))
}

/// The registry after subscribing `url` under `pt`: a no-op when the pair
/// is already present, an append otherwise.
pub open spec fn spec_subscribe(
    m: Map<Seq<char>, Seq<Seq<char>>>,
    pt: Seq<char>,
    url: Seq<char>,
) -> Map<Seq<char>, Seq<Seq<char>>> {
    if m[pt].contains(url) {
        m
    } else {
        m.insert(pt, m[pt].push(url))
    }
}

/// The registry after unsubscribing `url` from `pt`: the pair's entry is
/// removed and every other entry keeps its place.
pub open spec fn spec_unsubscribe(
    m: Map<Seq<char>, Seq<Seq<char>>>,
    pt: Seq<char>,
    url: Seq<char>,
) -> Map<Seq<char>, Seq<Seq<char>>> {
    m.insert(pt, m[pt].remove_value(url))
}

/// Maps each product type to the ordered list of subscriber callback URLs
/// registered under it; topics never subscribed to map to the empty list.
pub struct SubscriptionRegistry {
    topics: Vec<Topic>,
}

impl View for SubscriptionRegistry {
    type V = Map<Seq<char>, Seq<Seq<char>>>;

    closed spec fn view(&self) -> Map<Seq<char>, Seq<Seq<char>>> {
        topics_view(self.topics@)
    }
}

/// In a sequence of uniquely named topics, looking a name up yields the
/// URLs of the topic that bears it.
proof fn lemma_lookup_at(ts: Seq<Topic>, i: int)
    requires
        unique_names(ts),
        topic_at(ts, ts[i].name@, i),
    ensures
        lookup(ts, ts[i].name@) == url_views(ts[i].urls@),
{
    let pt = ts[i].name@;
    let j = choose|j: int| #[trigger] topic_at(ts, pt, j);
    assert(topic_at(ts, pt, j));
    if j != i {
        assert(ts[i].name@ != ts[j].name@);
    }
}

/// Looking up a name that no topic bears yields the empty sequence.
proof fn lemma_lookup_absent(ts: Seq<Topic>, pt: Seq<char>)
    requires
        forall|i: int| !(#[trigger] topic_at(ts, pt, i)),
    ensures
        lookup(ts, pt) == Seq::<Seq<char>>::empty(),
{
}

/// Replacing topic `i` by one with the same name leaves every other name's
/// lookup unchanged.
proof fn lemma_lookup_update_other(ts: Seq<Topic>, i: int, t: Topic, pt: Seq<char>)
    requires
        unique_names(ts),
        0 <= i < ts.len(),
        t.name@ == ts[i].name@,
        pt != ts[i].name@,
    ensures
        lookup(ts.update(i, t), pt) == lookup(ts, pt),
{
    let ts2 = ts.update(i, t);
    assert forall|k: int| topic_at(ts, pt, k) <==> topic_at(ts2, pt, k) by {
        if 0 <= k < ts.len() {
            assert(ts2[k].name@ == ts[k].name@);
        }
    }
    if exists|k: int| #[trigger] topic_at(ts, pt, k) {
        let k1 = choose|k: int| #[trigger] topic_at(ts, pt, k);
        let k2 = choose|k: int| #[trigger] topic_at(ts2, pt, k);
        assert(topic_at(ts, pt, k1));
        assert(topic_at(ts2, pt, k2));
        assert(topic_at(ts, pt, k2));
        if k1 != k2 {
            assert(ts[k1].name@ != ts[k2].name@);
        }
        assert(k1 != i);
        assert(ts2[k1].urls@ == ts[k1].urls@);
    } else {
        assert(!(exists|k: int| #[trigger] topic_at(ts2, pt, k)));
    }
}

/// Appending a topic leaves every other name's lookup unchanged.
proof fn lemma_lookup_push_other(ts: Seq<Topic>, t: Topic, pt: Seq<char>)
    requires
        unique_names(ts),
        pt != t.name@,
    ensures
        lookup(ts.push(t), pt) == lookup(ts, pt),
{
    let ts2 = ts.push(t);
    assert forall|k: int| topic_at(ts, pt, k) <==> topic_at(ts2, pt, k) by {
        if 0 <= k < ts.len() {
            assert(ts2[k].name@ == ts[k].name@);
        }
        if k == ts.len() {
            assert(ts2[k].name@ == t.name@);
        }
    }
    if exists|k: int| #[trigger] topic_at(ts, pt, k) {
        let k1 = choose|k: int| #[trigger] topic_at(ts, pt, k);
        let k2 = choose|k: int| #[trigger] topic_at(ts2, pt, k);
        assert(topic_at(ts, pt, k1));
        assert(topic_at(ts2, pt, k2));
        assert(topic_at(ts, pt, k2));
        if k1 != k2 {
            assert(ts[k1].name@ != ts[k2].name@);
        }
        assert(ts2[k1].urls@ == ts[k1].urls@);
    } else {
        assert(!(exists|k: int| #[trigger] topic_at(ts2, pt, k)));
    }
}

/// Mapping a push of a URL string to views pushes the URL's view.
proof fn lemma_url_views_push(urls: Seq<String>, u: String)
    ensures
        url_views(urls.push(u)) == url_views(urls).push(u@),
{
    assert(url_views(urls.push(u)) =~= url_views(urls).push(u@));
}

/// Returns the index of the topic keyed by `name`, if one exists.
fn find_topic(topics: &Vec<Topic>, name: &String) -> (r: Option<usize>)
    ensures
        match r {
            Some(i) => topic_at(topics@, name@, i as int),
            None => forall|j: int| !(#[trigger] topic_at(topics@, name@, j)),
        },
{
    let mut i: usize = 0;
    while i < topics.len()
        invariant
            i <= topics@.len(),
            forall|j: int| 0 <= j < i ==> !(#[trigger] topic_at(topics@, name@, j)),
        decreases topics@.len() - i,
    {
        if topics[i].name == *name {
            return Some(i);
        }
        i = i + 1;
    }
    None
}

/// Returns the index of the first occurrence of `u` in `urls`, if any.
fn find_url(urls: &Vec<String>, u: &String) -> (r: Option<usize>)
    ensures
        match r {
            Some(k) => {
                &&& 0 <= k < urls@.len()
                &&& urls@[k as int]@ == u@
                &&& forall|j: int| 0 <= j < k ==> (#[trigger] urls@[j])@ != u@
            },
            None => forall|j: int| 0 <= j < urls@.len() ==> (#[trigger] urls@[j])@ != u@,
        },
{
    let mut k: usize = 0;
    while k < urls.len()
        invariant
            k <= urls@.len(),
            forall|j: int| 0 <= j < k ==> (#[trigger] urls@[j])@ != u@,
        decreases urls@.len() - k,
    {
        if urls[k] == *u {
            return Some(k);
        }
        k = k + 1;
    }
    None
}

impl SubscriptionRegistry {
    /// No two topics share a key, and no topic lists a URL twice.
    #[verifier::type_invariant]
    spec fn inv(self) -> bool {
        &&& unique_names(self.topics@)
        &&& forall|i: int|
            0 <= i < self.topics@.len() ==> urls_distinct((#[trigger] self.topics@[i]).urls@)
    }

    /// An empty registry: every product type maps to no subscribers.
    pub fn new() -> (r: SubscriptionRegistry)
        ensures
            forall|pt: Seq<char>| #[trigger] r@[pt] == Seq::<Seq<char>>::empty(),
    {
        let r = SubscriptionRegistry { topics: Vec::new() };
        proof {
            assert forall|pt: Seq<char>| #[trigger] r@[pt] == Seq::<Seq<char>>::empty() by {
                lemma_lookup_absent(r.topics@, pt);
            }
        }
        r
    }

    /// Registers `url` under `product_type` after validating both; the
    /// operation is idempotent, and on success the returned record carries
    /// the pair as given.
    pub fn subscribe(&mut self, product_type: &str, url: &str) -> (r: Result<
        Subscriber,
        RegistryError,
    >)
        ensures
            valid_product_type(product_type@) && valid_url(url@) ==> {
                &&& final(self)@ == spec_subscribe(old(self)@, product_type@, url@)
                &&& match r {
                    Ok(s) => s.product_type@ == product_type@ && s.url@ == url@,
                    Err(_) => false,
                }
            },
            !(valid_product_type(product_type@) && valid_url(url@)) ==> {
                &&& r == Err::<Subscriber, RegistryError>(RegistryError::InvalidInput)
                &&& final(self)@ == old(self)@
            },
    {
        proof {
            use_type_invariant(&*self);
        }
        if !is_valid_product_type(product_type) || !is_valid_url(url) {
            return Err(RegistryError::InvalidInput);
        }
        let key = product_type.to_owned();
        let u = url.to_owned();
        match find_topic(&self.topics, &key) {
            Some(i) => {
                match find_url(&self.topics[i].urls, &u) {
                    Some(k) => {
                        proof {
                            lemma_lookup_at(self.topics@, i as int);
                            assert(url_views(self.topics@[i as int].urls@)[k as int] == url@);
                            assert(self@[product_type@].contains(url@));
                        }
                        Ok(Subscriber { product_type: key, url: u })
                    },
                    None => {
                        let ghost ts1 = self.topics@;
                        let mut topics: Vec<Topic> = Vec::new();
                        std::mem::swap(&mut topics, &mut self.topics);
                        let t = &mut topics[i];
                        t.urls.push(u.clone());
                        proof {
                            let ii = i as int;
                            assert(topics@[ii].urls@ == ts1[ii].urls@.push(u));
                            lemma_url_views_push(ts1[ii].urls@, u);
                            lemma_subscribe_present_view(ts1, topics@, ii, url@);
                            assert(urls_distinct(topics@[ii].urls@)) by {
                                assert forall|k1: int, k2: int|
                                    0 <= k1 < k2 < topics@[ii].urls@.len() implies (
                                #[trigger] topics@[ii].urls@[k1])@ != (
                                #[trigger] topics@[ii].urls@[k2])@ by {
                                    if k2 < ts1[ii].urls@.len() {
                                        assert(topics@[ii].urls@[k1] == ts1[ii].urls@[k1]);
                                        assert(topics@[ii].urls@[k2] == ts1[ii].urls@[k2]);
                                    } else {
                                        assert(topics@[ii].urls@[k1] == ts1[ii].urls@[k1]);
                                        assert(ts1[ii].urls@[k1]@ != u@);
                                    }
                                }
                            }
                            assert forall|x: int|
                                0 <= x < topics@.len() implies urls_distinct(
                                (#[trigger] topics@[x]).urls@) by {
                                if x != ii {
                                    assert(topics@[x] == ts1[x]);
                                }
                            }
                        }
                        std::mem::swap(&mut topics, &mut self.topics);
                        Ok(Subscriber { product_type: key, url: u })
                    },
                }
            },
            None => {
                let ghost ts1 = self.topics@;
                let mut urls: Vec<String> = Vec::new();
                urls.push(u.clone());
                let t = Topic { name: key.clone(), urls };
                let mut topics: Vec<Topic> = Vec::new();
                std::mem::swap(&mut topics, &mut self.topics);
                topics.push(t);
                proof {
                    let n = ts1.len() as int;
                    assert(url_views(topics@[n].urls@) =~= Seq::<Seq<char>>::empty().push(url@));
                    lemma_subscribe_fresh_view(ts1, topics@, product_type@, url@);
                    assert forall|x: int|
                        0 <= x < topics@.len() implies urls_distinct(
                        (#[trigger] topics@[x]).urls@) by {
                        if x < n {
                            assert(topics@[x] == ts1[x]);
                        } else {
                            assert(urls_distinct(topics@[n].urls@));
                        }
                    }
                }
                std::mem::swap(&mut topics, &mut self.topics);
                Ok(Subscriber { product_type: key, url: u })
            },
        }
    }
}

impl SubscriptionRegistry {
    /// Removes the (`product_type`, `url`) pair; a pair that is not
    /// registered is reported as `NotFound` and nothing changes.
    pub fn unsubscribe(&mut self, product_type: &str, url: &str) -> (r: Result<
        (),
        RegistryError,
    >)
        ensures
            old(self)@[product_type@].contains(url@) ==> {
                &&& r == Ok::<(), RegistryError>(())
                &&& final(self)@ == spec_unsubscribe(old(self)@, product_type@, url@)
            },
            !old(self)@[product_type@].contains(url@) ==> {
                &&& r == Err::<(), RegistryError>(RegistryError::NotFound)
                &&& final(self)@ == old(self)@
            },
    {
        proof {
            use_type_invariant(&*self);
        }
        let key = product_type.to_owned();
        let u = url.to_owned();
        match find_topic(&self.topics, &key) {
            Some(i) => {
                match find_url(&self.topics[i].urls, &u) {
                    Some(k) => {
                        let ghost ts1 = self.topics@;
                        let mut topics: Vec<Topic> = Vec::new();
                        std::mem::swap(&mut topics, &mut self.topics);
                        let t = &mut topics[i];
                        let _removed = t.urls.remove(k);
                        proof {
                            let ii = i as int;
                            lemma_unsubscribe_view(ts1, topics@, ii, k as int, url@);
                            assert forall|x: int|
                                0 <= x < topics@.len() implies urls_distinct(
                                (#[trigger] topics@[x]).urls@) by {
                                if x != ii {
                                    assert(topics@[x] == ts1[x]);
                                } else {
                                    lemma_urls_distinct_remove(ts1[ii].urls@, k as int);
                                }
                            }
                        }
                        std::mem::swap(&mut topics, &mut self.topics);
                        Ok(())
                    },
                    None => {
                        proof {
                            lemma_lookup_at(self.topics@, i as int);
                            if self@[product_type@].contains(url@) {
                                let j = choose|j: int|
                                    0 <= j < self@[product_type@].len() && self@[product_type@][j]
                                        == url@;
                                assert(url_views(self.topics@[i as int].urls@)[j]
                                    == self.topics@[i as int].urls@[j]@);
                            }
                        }
                        Err(RegistryError::NotFound)
                    },
                }
            },
            None => {
                proof {
                    lemma_lookup_absent(self.topics@, product_type@);
                }
                Err(RegistryError::NotFound)
            },
        }
    }
}

impl SubscriptionRegistry {
    /// The callback URLs registered under `product_type`, in insertion
    /// order: the snapshot a publish delivers to.
    /// Besides handing the list out, this states the registry's standing
    /// guarantee that however often a pair was subscribed, it is one entry:
    /// the list is duplicate-free.
    pub fn subscribers(&self, product_type: &str) -> (urls: Vec<String>)
        ensures
            url_views(urls@) == self@[product_type@],
            self@[product_type@].no_duplicates(),
    {
        proof {
            use_type_invariant(&*self);
        }
        let key = product_type.to_owned();
        match find_topic(&self.topics, &key) {
            Some(i) => {
                let src = &self.topics[i].urls;
                let mut out: Vec<String> = Vec::new();
                let mut k: usize = 0;
                while k < src.len()
                    invariant
                        k <= src@.len(),
                        out@.len() == k,
                        forall|j: int| 0 <= j < k ==> (#[trigger] out@[j])@ == src@[j]@,
                    decreases src@.len() - k,
                {
                    out.push(src[k].clone());
                    k = k + 1;
                }
                proof {
                    lemma_lookup_at(self.topics@, i as int);
                    assert(url_views(out@) =~= url_views(src@));
                    let s = url_views(src@);
                    assert forall|k1: int, k2: int|
                        0 <= k1 < s.len() && 0 <= k2 < s.len() && k1 != k2 implies s[k1]
                        != s[k2] by {
                        if k1 < k2 {
                            assert(src@[k1]@ != src@[k2]@);
                        } else {
                            assert(src@[k2]@ != src@[k1]@);
                        }
                    }
                }
                out
            },
            None => {
                let out: Vec<String> = Vec::new();
                proof {
                    lemma_lookup_absent(self.topics@, product_type@);
                    assert(url_views(out@) =~= Seq::<Seq<char>>::empty());
                }
                out
            },
        }
    }

    /// Snapshots the subscribers of `product_type` and starts a publish of
    /// `payload` to them, in insertion order.
    pub fn begin_publish(&self, product_type: &str, payload: &str) -> (p: Publication)
        ensures
            p.targets() == self@[product_type@],
            p.targets().no_duplicates(),
            p.delivered() == Seq::<RecordView>::empty(),
            p.payload() == payload@,
    {
        let targets = self.subscribers(product_type);
        Publication::new(targets, payload.to_owned())
    }
}

/// Removing one index from a duplicate-free URL list keeps it
/// duplicate-free.
proof fn lemma_urls_distinct_remove(urls: Seq<String>, k: int)
    requires
        urls_distinct(urls),
        0 <= k < urls.len(),
    ensures
        urls_distinct(urls.remove(k)),
{
    urls.remove_ensures(k);
    let r = urls.remove(k);
    assert forall|k1: int, k2: int|
        0 <= k1 < k2 < r.len() implies (#[trigger] r[k1])@ != (#[trigger] r[k2])@ by {
        let o1: int = if k1 < k { k1 } else { k1 + 1 };
        let o2: int = if k2 < k { k2 } else { k2 + 1 };
        assert(r[k1] == urls[o1]);
        assert(r[k2] == urls[o2]);
    }
}

/// After the first occurrence of a URL is removed from topic `i`, the
/// topics denote `spec_unsubscribe` of the old registry, which did contain
/// the pair.
proof fn lemma_unsubscribe_view(ts1: Seq<Topic>, ts2: Seq<Topic>, i: int, k: int, url: Seq<char>)
    requires
        unique_names(ts1),
        0 <= i < ts1.len(),
        ts2 == ts1.update(i, ts2[i]),
        ts2[i].name@ == ts1[i].name@,
        0 <= k < ts1[i].urls@.len(),
        ts1[i].urls@[k]@ == url,
        forall|j: int| 0 <= j < k ==> (#[trigger] ts1[i].urls@[j])@ != url,
        ts2[i].urls@ == ts1[i].urls@.remove(k),
    ensures
        unique_names(ts2),
        topics_view(ts1)[ts1[i].name@].contains(url),
        topics_view(ts2) == spec_unsubscribe(topics_view(ts1), ts1[i].name@, url),
{
    let pt = ts1[i].name@;
    let m1 = topics_view(ts1);
    let m2 = topics_view(ts2);
    assert forall|x: int| 0 <= x < ts2.len() implies (#[trigger] ts2[x].name)@ == ts1[x].name@ by {
        if x != i {
            assert(ts2[x] == ts1[x]);
        }
    }
    assert(unique_names(ts2));
    lemma_lookup_at(ts1, i);
    assert(topic_at(ts2, pt, i));
    lemma_lookup_at(ts2, i);
    let s = url_views(ts1[i].urls@);
    assert(s[k] == url);
    assert(m1[pt].contains(url));
    assert(s.remove_value(url) == s.remove(k)) by {
        s.index_of_first_ensures(url);
        let idx = s.index_of_first(url)->Some_0;
        assert(s[idx] == url);
        if idx < k {
            assert(ts1[i].urls@[idx]@ != url);
        }
        if idx > k {
            assert(s[k] != url);
        }
    }
    assert(url_views(ts2[i].urls@) =~= s.remove(k)) by {
        ts1[i].urls@.remove_ensures(k);
        s.remove_ensures(k);
        assert forall|x: int|
            0 <= x < s.remove(k).len() implies url_views(ts2[i].urls@)[x] == s.remove(k)[x] by {
            if x < k {
                assert(ts1[i].urls@.remove(k)[x] == ts1[i].urls@[x]);
                assert(s.remove(k)[x] == s[x]);
            } else {
                assert(ts1[i].urls@.remove(k)[x] == ts1[i].urls@[x + 1]);
                assert(s.remove(k)[x] == s[x + 1]);
            }
        }
    }
    let rhs = m1.insert(pt, m1[pt].remove_value(url));
    assert forall|q: Seq<char>| #[trigger] m2[q] == rhs[q] by {
        if q == pt {
            assert(m2[pt] == url_views(ts2[i].urls@));
        } else {
            lemma_lookup_update_other(ts1, i, ts2[i], q);
        }
    }
    assert(m2 =~= rhs);
}

/// After a URL absent from topic `i` is appended to it, the topics denote
/// `spec_subscribe` of the old registry.
proof fn lemma_subscribe_present_view(ts1: Seq<Topic>, ts2: Seq<Topic>, i: int, url: Seq<char>)
    requires
        unique_names(ts1),
        0 <= i < ts1.len(),
        ts2 == ts1.update(i, ts2[i]),
        ts2[i].name@ == ts1[i].name@,
        url_views(ts2[i].urls@) == url_views(ts1[i].urls@).push(url),
        forall|j: int|
            0 <= j < ts1[i].urls@.len() ==> (#[trigger] ts1[i].urls@[j])@ != url,
    ensures
        unique_names(ts2),
        topics_view(ts2) == spec_subscribe(topics_view(ts1), ts1[i].name@, url),
{
    let pt = ts1[i].name@;
    let m1 = topics_view(ts1);
    let m2 = topics_view(ts2);
    assert forall|k: int| 0 <= k < ts2.len() implies (#[trigger] ts2[k].name)@ == ts1[k].name@ by {
        if k != i {
            assert(ts2[k] == ts1[k]);
        }
    }
    assert(unique_names(ts2));
    lemma_lookup_at(ts1, i);
    assert(topic_at(ts2, pt, i));
    lemma_lookup_at(ts2, i);
    assert(!m1[pt].contains(url)) by {
        if m1[pt].contains(url) {
            let j = choose|j: int| 0 <= j < m1[pt].len() && m1[pt][j] == url;
            assert(url_views(ts1[i].urls@)[j] == ts1[i].urls@[j]@);
        }
    }
    let rhs = m1.insert(pt, m1[pt].push(url));
    assert forall|q: Seq<char>| #[trigger] m2[q] == rhs[q] by {
        if q == pt {
            assert(m2[pt] == url_views(ts2[i].urls@));
        } else {
            lemma_lookup_update_other(ts1, i, ts2[i], q);
        }
    }
    assert(m2 =~= rhs);
}

/// After a topic with a fresh name and a single URL is appended, the
/// topics denote `spec_subscribe` of the old registry.
proof fn lemma_subscribe_fresh_view(ts1: Seq<Topic>, ts2: Seq<Topic>, pt: Seq<char>, url: Seq<char>)
    requires
        unique_names(ts1),
        forall|j: int| !(#[trigger] topic_at(ts1, pt, j)),
        ts2 == ts1.push(ts2[ts1.len() as int]),
        ts2[ts1.len() as int].name@ == pt,
        url_views(ts2[ts1.len() as int].urls@) == Seq::<Seq<char>>::empty().push(url),
    ensures
        unique_names(ts2),
        topics_view(ts2) == spec_subscribe(topics_view(ts1), pt, url),
{
    let n = ts1.len() as int;
    let m1 = topics_view(ts1);
    let m2 = topics_view(ts2);
    assert(unique_names(ts2)) by {
        assert forall|i: int, j: int|
            0 <= i < j < ts2.len() implies (#[trigger] ts2[i].name)@ != (#[trigger] ts2[j].name)@ by {
            if j < n {
                assert(ts2[i] == ts1[i] && ts2[j] == ts1[j]);
            } else {
                assert(ts2[i] == ts1[i] && ts2[j].name@ == pt);
                assert(!topic_at(ts1, pt, i));
            }
        }
    }
    lemma_lookup_absent(ts1, pt);
    assert(!m1[pt].contains(url));
    assert(topic_at(ts2, pt, n));
    lemma_lookup_at(ts2, n);
    let rhs = m1.insert(pt, m1[pt].push(url));
    assert forall|q: Seq<char>| #[trigger] m2[q] == rhs[q] by {
        if q == pt {
            assert(m2[pt] == url_views(ts2[n].urls@));
        } else {
            lemma_lookup_push_other(ts1, ts2[n], q);
        }
    }
    assert(m2 =~= rhs);
}

} // verus!
