//! Headers by name, in a fixed order.

use vstd::prelude::*;

use crate::text;

verus! {

/// Whether `a` comes before `b`, byte by byte; a sequence comes behind its beginnings.
pub open spec fn bytes_before(a: Seq<u8>, b: Seq<u8>) -> bool
    decreases a.len(),
{
    if b.len() == 0 {
        false
    } else if a.len() == 0 {
        true
    } else if a[0] == b[0] {
        bytes_before(a.drop_first(), b.drop_first())
    } else {
        a[0] < b[0]
    }
}

/// Whether the name `a` comes before the name `b`: in the order of their UTF-8 bytes.
pub open spec fn name_before(a: Seq<char>, b: Seq<char>) -> bool {
    bytes_before(vstd::utf8::encode_utf8(a), vstd::utf8::encode_utf8(b))
}

/// The headers of a map, each a name and its values.
pub open spec fn ascending(headers: Seq<(Seq<char>, Seq<Seq<char>>)>) -> bool {
    forall|i: int, j: int|
        #![trigger headers[i], headers[j]]
        0 <= i < j < headers.len() ==> name_before(headers[i].0, headers[j].0)
}

/// The values of the headers, by name.
pub open spec fn by_name(headers: Seq<(Seq<char>, Seq<Seq<char>>)>) -> Map<
    Seq<char>,
    Seq<Seq<char>>,
>
    decreases headers.len(),
{
    if headers.len() == 0 {
        Map::empty()
    } else {
        by_name(headers.drop_last()).insert(headers.last().0, headers.last().1)
    }
}

pub proof fn lemma_before_irreflexive(a: Seq<u8>)
    ensures
        !bytes_before(a, a),
    decreases a.len(),
{
    if a.len() > 0 {
        lemma_before_irreflexive(a.drop_first());
    }
}

pub proof fn lemma_before_transitive(a: Seq<u8>, b: Seq<u8>, c: Seq<u8>)
    requires
        bytes_before(a, b),
        bytes_before(b, c),
    ensures
        bytes_before(a, c),
    decreases a.len(),
{
    if a.len() > 0 && b.len() > 0 && c.len() > 0 && a[0] == b[0] && b[0] == c[0] {
        lemma_before_transitive(a.drop_first(), b.drop_first(), c.drop_first());
    }
}

pub proof fn lemma_before_total(a: Seq<u8>, b: Seq<u8>)
    ensures
        bytes_before(a, b) || bytes_before(b, a) || a == b,
    decreases a.len(),
{
    if a.len() > 0 && b.len() > 0 && a[0] == b[0] {
        lemma_before_total(a.drop_first(), b.drop_first());
        if a.drop_first() == b.drop_first() {
            assert(a =~= seq![a[0]] + a.drop_first());
            assert(b =~= seq![b[0]] + b.drop_first());
        }
    } else if a.len() == 0 && b.len() == 0 {
        assert(a =~= b);
    }
}

/// Of two names one comes first, unless they are the same.
pub proof fn lemma_name_order(a: Seq<char>, b: Seq<char>)
    ensures
        name_before(a, b) || name_before(b, a) || a == b,
        !(name_before(a, b) && name_before(b, a)),
        a == b ==> !name_before(a, b),
{
    let x = vstd::utf8::encode_utf8(a);
    let y = vstd::utf8::encode_utf8(b);
    lemma_before_total(x, y);
    lemma_before_irreflexive(x);
    if bytes_before(x, y) && bytes_before(y, x) {
        lemma_before_transitive(x, y, x);
    }
    vstd::utf8::encode_utf8_decode_utf8(a);
    vstd::utf8::encode_utf8_decode_utf8(b);
}

/// How two names stand to each other.
#[derive(Copy, Clone, Debug, PartialEq, Eq)]
enum Side {
    Before,
    Same,
    Behind,
}

fn bytes_side(a: &[u8], b: &[u8]) -> (side: Side)
    ensures
        side is Before <==> bytes_before(a@, b@),
        side is Same <==> a@ == b@,
        side is Behind <==> bytes_before(b@, a@),
{
    let mut i: usize = 0;
    assert(a@.skip(0) =~= a@);
    assert(b@.skip(0) =~= b@);
    while i < a.len() && i < b.len()
        invariant
            i <= a.len(),
            i <= b.len(),
            a@.take(i as int) == b@.take(i as int),
            bytes_before(a@, b@) == bytes_before(a@.skip(i as int), b@.skip(i as int)),
            bytes_before(b@, a@) == bytes_before(b@.skip(i as int), a@.skip(i as int)),
        decreases a.len() - i,
    {
        let ghost x = a@.skip(i as int);
        let ghost y = b@.skip(i as int);
        assert(x[0] == a@[i as int] && y[0] == b@[i as int]);
        if a[i] < b[i] {
            assert(a@ != b@);
            return Side::Before;
        }
        if a[i] > b[i] {
            assert(a@ != b@);
            return Side::Behind;
        }
        assert(x.drop_first() =~= a@.skip(i + 1));
        assert(y.drop_first() =~= b@.skip(i + 1));
        assert(a@.take(i + 1) =~= a@.take(i as int).push(a@[i as int]));
        assert(b@.take(i + 1) =~= b@.take(i as int).push(b@[i as int]));
        i = i + 1;
    }
    if i < b.len() {
        assert(a@.len() != b@.len());
        Side::Before
    } else if i < a.len() {
        assert(a@.len() != b@.len());
        Side::Behind
    } else {
        assert(a@.take(i as int) =~= a@);
        assert(b@.take(i as int) =~= b@);
        Side::Same
    }
}

fn name_side(a: &str, b: &str) -> (side: Side)
    ensures
        side is Before <==> name_before(a@, b@),
        side is Same <==> a@ == b@,
        side is Behind <==> name_before(b@, a@),
{
    proof {
        vstd::utf8::encode_utf8_decode_utf8(a@);
        vstd::utf8::encode_utf8_decode_utf8(b@);
    }
    bytes_side(a.as_bytes(), b.as_bytes())
}

/// One header: a name and its values.
pub struct HeaderEntry {
    pub name: String,
    pub values: Vec<String>,
}

impl View for HeaderEntry {
    type V = (Seq<char>, Seq<Seq<char>>);

    open spec fn view(&self) -> (Seq<char>, Seq<Seq<char>>) {
        (self.name@, text::views(self.values@))
    }
}

/// Headers by name. They are kept in the order of the UTF-8 bytes of their names, so
/// that the order does not depend on how they came in.
pub struct HeaderMap {
    entries: Vec<HeaderEntry>,
}

impl View for HeaderMap {
    type V = Seq<(Seq<char>, Seq<Seq<char>>)>;

    /// The headers, in order.
    closed spec fn view(&self) -> Seq<(Seq<char>, Seq<Seq<char>>)> {
        self.entries@.map_values(|e: HeaderEntry| e@)
    }
}

impl HeaderMap {
    #[verifier::type_invariant]
    spec fn in_order(self) -> bool {
        ascending(self.entries@.map_values(|e: HeaderEntry| e@))
    }

    /// No headers.
    pub fn new() -> (headers: HeaderMap)
        ensures
            headers@ == Seq::<(Seq<char>, Seq<Seq<char>>)>::empty(),
    {
        let entries: Vec<HeaderEntry> = Vec::new();
        assert(entries@.map_values(|e: HeaderEntry| e@) =~= Seq::<
            (Seq<char>, Seq<Seq<char>>),
        >::empty());
        HeaderMap { entries }
    }

    /// The headers, in order.
    pub fn entries(&self) -> (entries: &Vec<HeaderEntry>)
        ensures
            entries@.map_values(|e: HeaderEntry| e@) == self@,
            ascending(self@),
    {
        proof {
            use_type_invariant(self);
        }
        &self.entries
    }

    /// These headers and one more, which takes the place of one with the same name.
    pub fn with(self, name: String, values: Vec<String>) -> (headers: HeaderMap)
        ensures
            ascending(headers@),
            by_name(headers@) == by_name(self@).insert(name@, text::views(values@)),
    {
        proof {
            use_type_invariant(&self);
        }
        let ghost old_view = self@;
        let ghost key = name@;
        let ghost added = (name@, text::views(values@));
        let mut entries: Vec<HeaderEntry> = self.entries;
        let mut i: usize = 0;
        while i < entries.len()
            invariant_except_break
                i <= entries.len(),
                key == name@,
                entries@.map_values(|e: HeaderEntry| e@) == old_view,
                forall|k: int| 0 <= k < i ==> name_before((#[trigger] old_view[k]).0, key),
            ensures
                i <= entries.len(),
                entries@.map_values(|e: HeaderEntry| e@) == old_view,
                forall|k: int| 0 <= k < i ==> name_before((#[trigger] old_view[k]).0, key),
                i < entries.len() ==> !name_before(old_view[i as int].0, key),
            decreases entries.len() - i,
        {
            assert(old_view[i as int].0 == entries@[i as int].name@);
            match name_side(entries[i].name.as_str(), name.as_str()) {
                Side::Before => {},
                _ => {
                    break ;
                },
            }
            i = i + 1;
        }
        let same: bool = i < entries.len() && entries[i].name == name;
        proof {
            lemma_place(old_view, i as int, added);
        }
        let entry = HeaderEntry { name, values };
        if same {
            assert(old_view[i as int].0 == key);
            entries.set(i, entry);
            assert(entries@.map_values(|e: HeaderEntry| e@) =~= old_view.update(
                i as int,
                added,
            ));
        } else {
            assert(i < entries.len() ==> old_view[i as int].0 != key);
            entries.insert(i, entry);
            assert(entries@.map_values(|e: HeaderEntry| e@) =~= old_view.insert(
                i as int,
                added,
            ));
        }
        HeaderMap { entries }
    }
}

/// Where a header goes: in place of one with its name, or in front of the first that
/// does not come before it.
proof fn lemma_place(
    headers: Seq<(Seq<char>, Seq<Seq<char>>)>,
    i: int,
    added: (Seq<char>, Seq<Seq<char>>),
)
    requires
        ascending(headers),
        0 <= i <= headers.len(),
        forall|k: int| 0 <= k < i ==> name_before((#[trigger] headers[k]).0, added.0),
        i < headers.len() ==> !name_before(headers[i].0, added.0),
    ensures
        i < headers.len() && headers[i].0 == added.0 ==> ascending(headers.update(i, added))
            && by_name(headers.update(i, added)) == by_name(headers).insert(added.0, added.1),
        i == headers.len() || headers[i].0 != added.0 ==> ascending(headers.insert(i, added))
            && by_name(headers.insert(i, added)) == by_name(headers).insert(added.0, added.1),
{
    if i < headers.len() && headers[i].0 == added.0 {
        let new = headers.update(i, added);
        assert(ascending(new));
        lemma_by_name(headers);
        lemma_by_name(new);
        assert forall|k: int| 0 <= k < new.len() implies by_name(headers).insert(
            added.0,
            added.1,
        ).contains_key(#[trigger] new[k].0) && by_name(headers).insert(added.0, added.1)[new[k].0]
            == new[k].1 by {
            if k != i {
                assert(new[k] == headers[k]);
                lemma_names_differ(headers, k, i);
            }
        }
        assert forall|n: Seq<char>| by_name(headers).insert(
            added.0,
            added.1,
        ).contains_key(n) implies by_name(new).contains_key(n) by {
            if n == added.0 {
                assert(new[i].0 == n);
            } else {
                let k = choose|k: int| 0 <= k < headers.len() && (#[trigger] headers[k]).0 == n;
                assert(new[k].0 == n);
            }
        }
        lemma_same_map(new, by_name(headers).insert(added.0, added.1));
    } else {
        let new = headers.insert(i, added);
        assert forall|a: int, b: int|
            #![trigger new[a], new[b]]
            0 <= a < b < new.len() implies name_before(new[a].0, new[b].0) by {
            if a < i && b > i {
                assert(new[a] == headers[a] && new[b] == headers[b - 1]);
            } else if a == i {
                assert(new[b] == headers[b - 1]);
                lemma_name_order(headers[i].0, added.0);
                if b - 1 > i {
                    assert(name_before(headers[i].0, headers[b - 1].0));
                    lemma_before_transitive(
                        vstd::utf8::encode_utf8(added.0),
                        vstd::utf8::encode_utf8(headers[i].0),
                        vstd::utf8::encode_utf8(headers[b - 1].0),
                    );
                }
            } else if a > i {
                assert(new[a] == headers[a - 1] && new[b] == headers[b - 1]);
            } else {
                assert(new[a] == headers[a]);
                if b < i {
                    assert(new[b] == headers[b]);
                }
            }
        }
        lemma_by_name(headers);
        lemma_by_name(new);
        assert forall|k: int| 0 <= k < new.len() implies by_name(headers).insert(
            added.0,
            added.1,
        ).contains_key(#[trigger] new[k].0) && by_name(headers).insert(added.0, added.1)[new[k].0]
            == new[k].1 by {
            if k != i {
                let old_k = if k < i {
                    k
                } else {
                    k - 1
                };
                assert(new[k] == headers[old_k]);
                lemma_names_differ(new, k, i);
            }
        }
        assert forall|n: Seq<char>| by_name(headers).insert(
            added.0,
            added.1,
        ).contains_key(n) implies by_name(new).contains_key(n) by {
            if n == added.0 {
                assert(new[i].0 == n);
            } else {
                let k = choose|k: int| 0 <= k < headers.len() && (#[trigger] headers[k]).0 == n;
                let new_k = if k < i {
                    k
                } else {
                    k + 1
                };
                assert(new[new_k].0 == n);
            }
        }
        lemma_same_map(new, by_name(headers).insert(added.0, added.1));
    }
}

proof fn lemma_names_differ(headers: Seq<(Seq<char>, Seq<Seq<char>>)>, i: int, j: int)
    requires
        ascending(headers),
        0 <= i < headers.len(),
        0 <= j < headers.len(),
        i != j,
    ensures
        headers[i].0 != headers[j].0,
{
    lemma_name_order(headers[i].0, headers[j].0);
    lemma_name_order(headers[j].0, headers[i].0);
    if i < j {
        assert(name_before(headers[i].0, headers[j].0));
    } else {
        assert(name_before(headers[j].0, headers[i].0));
    }
}

/// The map of ascending headers holds each of them, and nothing else.
proof fn lemma_by_name(headers: Seq<(Seq<char>, Seq<Seq<char>>)>)
    requires
        ascending(headers),
    ensures
        forall|k: int|
            0 <= k < headers.len() ==> by_name(headers).contains_key(#[trigger] headers[k].0)
                && by_name(headers)[headers[k].0] == headers[k].1,
        forall|n: Seq<char>|
            by_name(headers).contains_key(n) ==> exists|k: int|
                0 <= k < headers.len() && (#[trigger] headers[k]).0 == n,
    decreases headers.len(),
{
    if headers.len() > 0 {
        let init = headers.drop_last();
        assert(ascending(init)) by {
            assert forall|i: int, j: int|
                #![trigger init[i], init[j]]
                0 <= i < j < init.len() implies name_before(init[i].0, init[j].0) by {
                assert(init[i] == headers[i] && init[j] == headers[j]);
            }
        }
        lemma_by_name(init);
        let last = headers.len() - 1;
        assert forall|k: int| 0 <= k < headers.len() implies by_name(headers).contains_key(
            #[trigger] headers[k].0,
        ) && by_name(headers)[headers[k].0] == headers[k].1 by {
            if k < last {
                assert(init[k] == headers[k]);
                lemma_names_differ(headers, k, last);
            }
        }
        assert forall|n: Seq<char>| by_name(headers).contains_key(n) implies exists|k: int|
            0 <= k < headers.len() && (#[trigger] headers[k]).0 == n by {
            if n == headers.last().0 {
                assert(headers[last].0 == n);
            } else {
                assert(by_name(init).contains_key(n));
                let k = choose|k: int| 0 <= k < init.len() && (#[trigger] init[k]).0 == n;
                assert(init[k] == headers[k]);
            }
        }
    }
}

proof fn lemma_same_map(
    headers: Seq<(Seq<char>, Seq<Seq<char>>)>,
    m: Map<Seq<char>, Seq<Seq<char>>>,
)
    requires
        ascending(headers),
        forall|k: int|
            0 <= k < headers.len() ==> m.contains_key(#[trigger] headers[k].0)
                && m[headers[k].0] == headers[k].1,
        forall|n: Seq<char>| m.contains_key(n) ==> by_name(headers).contains_key(n),
    ensures
        by_name(headers) == m,
{
    lemma_by_name(headers);
    assert forall|n: Seq<char>| by_name(headers).contains_key(n) implies m.contains_key(n)
        && m[n] == by_name(headers)[n] by {
        let k = choose|k: int| 0 <= k < headers.len() && (#[trigger] headers[k]).0 == n;
        assert(headers[k].0 == n);
    }
    assert(by_name(headers) =~= m);
}

/// The order of headers is determined by the headers: two maps with the same headers
/// list them alike.
pub proof fn law_order_is_determined(
    a: Seq<(Seq<char>, Seq<Seq<char>>)>,
    b: Seq<(Seq<char>, Seq<Seq<char>>)>,
)
    requires
        ascending(a),
        ascending(b),
        by_name(a) == by_name(b),
    ensures
        a == b,
    decreases a.len(),
{
    lemma_by_name(a);
    lemma_by_name(b);
    if a.len() == 0 {
        if b.len() > 0 {
            assert(by_name(b).contains_key(b[0].0));
        }
        assert(a =~= b);
    } else {
        let x = a.len() - 1;
        assert(by_name(b).contains_key(a[x].0));
        let k = choose|k: int| 0 <= k < b.len() && (#[trigger] b[k]).0 == a[x].0;
        let y = b.len() - 1;
        assert(by_name(a).contains_key(b[y].0));
        let l = choose|l: int| 0 <= l < a.len() && (#[trigger] a[l]).0 == b[y].0;
        if k < y {
            assert(name_before(b[k].0, b[y].0));
            lemma_name_order(b[k].0, b[y].0);
            if l < x {
                assert(name_before(a[l].0, a[x].0));
            }
        }
        assert(a[x].0 == b[y].0);
        assert(by_name(a)[a[x].0] == a[x].1);
        assert(by_name(b)[b[y].0] == b[y].1);
        let p = a.drop_last();
        let q = b.drop_last();
        assert(ascending(p)) by {
            assert forall|i: int, j: int|
                #![trigger p[i], p[j]]
                0 <= i < j < p.len() implies name_before(p[i].0, p[j].0) by {
                assert(p[i] == a[i] && p[j] == a[j]);
            }
        }
        assert(ascending(q)) by {
            assert forall|i: int, j: int|
                #![trigger q[i], q[j]]
                0 <= i < j < q.len() implies name_before(q[i].0, q[j].0) by {
                assert(q[i] == b[i] && q[j] == b[j]);
            }
        }
        let n = a[x].0;
        lemma_last_absent(a);
        lemma_last_absent(b);
        assert(by_name(p) =~= by_name(a).remove(n));
        assert(by_name(q) =~= by_name(b).remove(n));
        law_order_is_determined(p, q);
        assert(a =~= p.push(a[x]));
        assert(b =~= q.push(b[y]));
    }
}

proof fn lemma_last_absent(headers: Seq<(Seq<char>, Seq<Seq<char>>)>)
    requires
        ascending(headers),
        headers.len() > 0,
    ensures
        !by_name(headers.drop_last()).contains_key(headers.last().0),
{
    let init = headers.drop_last();
    assert(ascending(init)) by {
        assert forall|i: int, j: int|
            #![trigger init[i], init[j]]
            0 <= i < j < init.len() implies name_before(init[i].0, init[j].0) by {
            assert(init[i] == headers[i] && init[j] == headers[j]);
        }
    }
    lemma_by_name(init);
    if by_name(init).contains_key(headers.last().0) {
        let k = choose|k: int|
            0 <= k < init.len() && (#[trigger] init[k]).0 == headers.last().0;
        lemma_names_differ(headers, k, headers.len() - 1);
    }
}

} // verus!
