//! Index resolution: from query predicates to the one registered index that serves them.
use crate::attrs::Plaintext;
use crate::error::QueryError;
use itertools::Itertools;
use vstd::prelude::*;

verus! {

/// The kind of a single predicate.
#[derive(PartialEq, Eq, Structural, Clone, Copy, Debug)]
pub enum SingleIndex {
    Exact,
    Prefix,
}

/// The kinds of the predicates an index serves, in the index's field order.
#[derive(PartialEq, Eq, Structural, Clone, Copy, Debug)]
pub enum IndexType {
    Single(SingleIndex),
    Compound2(SingleIndex, SingleIndex),
}

/// A registered index: its canonical name (field names joined by `#`) and its kinds.
#[derive(PartialEq, Eq, Debug)]
pub struct IndexDefinition {
    pub name: String,
    pub index_type: IndexType,
}

pub type IndexView = (Seq<char>, IndexType);

/// The model of a predicate: field name, kind and plaintext bytes.
pub type PartView = (Seq<char>, SingleIndex, Seq<u8>);

/// The model of a prepared query: index name, type name, index and composed plaintexts.
pub type PreparedView = (Seq<char>, Seq<char>, IndexView, Seq<Seq<u8>>);

impl View for IndexDefinition {
    type V = IndexView;

    open spec fn view(&self) -> IndexView {
        (self.name@, self.index_type)
    }
}

impl IndexDefinition {
    pub fn new(name: &str, index_type: IndexType) -> (r: IndexDefinition)
        ensures
            r@ == (name@, index_type),
    {
        IndexDefinition { name: String::from_str(name), index_type }
    }

    pub fn copy(&self) -> (r: IndexDefinition)
        ensures
            r@ == self@,
    {
        IndexDefinition { name: self.name.clone(), index_type: self.index_type }
    }
}

/// The strings joined, with `sep` between each two.
pub open spec fn join(items: Seq<Seq<char>>, sep: Seq<char>) -> Seq<char>
    decreases items.len(),
{
    if items.len() == 0 {
        Seq::empty()
    } else if items.len() == 1 {
        items[0]
    } else {
        join(items.drop_last(), sep) + sep + items.last()
    }
}

pub open spec fn strings_view(items: Seq<String>) -> Seq<Seq<char>> {
    items.map_values(|s: String| s@)
}

/// Joins the strings with `sep` between each two.
pub fn join_strings(items: &Vec<String>, sep: &str) -> (r: String)
    ensures
        r@ == join(strings_view(items@), sep@),
{
    let ghost iv = strings_view(items@);
    let mut r = String::new();
    let mut i: usize = 0;
    assert(iv.take(0) =~= Seq::<Seq<char>>::empty());
    while i < items.len()
        invariant
            i <= items@.len(),
            iv == strings_view(items@),
            r@ == join(iv.take(i as int), sep@),
        decreases items@.len() - i,
    {
        if i > 0 {
            r.append(sep);
        }
        r.append(items[i].as_str());
        assert(iv.take(i + 1).drop_last() =~= iv.take(i as int));
        assert(iv.take(i + 1).last() == items@[i as int]@);
        if i == 0 {
            assert(r@ =~= join(iv.take(1), sep@));
        }
        i = i + 1;
    }
    assert(iv.take(i as int) =~= iv);
    r
}

/// The orders in which the positions of `n` predicates are tried.
pub open spec fn orders(n: nat) -> Seq<Seq<usize>> {
    if n == 1 {
        seq![seq![0usize]]
    } else {
        seq![seq![0usize, 1usize], seq![1usize, 0usize]]
    }
}

/// Relies on itertools::Itertools::permutations: every ordering of the positions
/// `0..n`, in lexicographic order.
#[verifier::external_body]
fn position_orders(n: usize) -> (r: Vec<Vec<usize>>)
    requires
        1 <= n <= 2,
    ensures
        r@.map_values(|p: Vec<usize>| p@) == orders(n as nat),
{
    (0..n).permutations(n).collect()
}

pub open spec fn parts_view(parts: Seq<(String, SingleIndex, Plaintext)>) -> Seq<PartView> {
    parts.map_values(|x: (String, SingleIndex, Plaintext)| (x.0@, x.1, x.2.bytes@))
}

pub open spec fn indexes_view(indexes: Seq<IndexDefinition>) -> Seq<IndexView> {
    indexes.map_values(|d: IndexDefinition| d@)
}

/// The field names of the predicates, taken in the order `p`.
pub open spec fn perm_names(parts: Seq<PartView>, p: Seq<usize>) -> Seq<Seq<char>> {
    p.map_values(|j: usize| parts[j as int].0)
}

/// The plaintexts of the predicates, taken in the order `p`.
pub open spec fn perm_plaintexts(parts: Seq<PartView>, p: Seq<usize>) -> Seq<Seq<u8>> {
    p.map_values(|j: usize| parts[j as int].2)
}

/// The kinds of the predicates, taken in the order `p`.
pub open spec fn perm_kind(parts: Seq<PartView>, p: Seq<usize>) -> IndexType {
    if p.len() == 1 {
        IndexType::Single(parts[p[0] as int].1)
    } else {
        IndexType::Compound2(parts[p[0] as int].1, parts[p[1] as int].1)
    }
}

/// The canonical index name of the predicates taken in the order `p`.
pub open spec fn perm_index_name(parts: Seq<PartView>, p: Seq<usize>) -> Seq<char> {
    join(perm_names(parts, p), seq!['#'])
}

pub open spec fn index_matches(d: IndexView, name: Seq<char>, t: IndexType) -> bool {
    d.0 == name && d.1 == t
}

/// The position of the first registered index with this name and these kinds.
pub open spec fn find_index(reg: Seq<IndexView>, name: Seq<char>, t: IndexType) -> Option<int>
    decreases reg.len(),
{
    if reg.len() == 0 {
        None
    } else if index_matches(reg[0], name, t) {
        Some(0)
    } else {
        match find_index(reg.drop_first(), name, t) {
            Some(i) => Some(i + 1),
            None => None,
        }
    }
}

/// The first order in `ps` whose index is registered, with that index's position.
pub open spec fn first_resolving(reg: Seq<IndexView>, parts: Seq<PartView>, ps: Seq<Seq<usize>>) -> Option<
    (Seq<usize>, int),
>
    decreases ps.len(),
{
    if ps.len() == 0 {
        None
    } else {
        match find_index(reg, perm_index_name(parts, ps[0]), perm_kind(parts, ps[0])) {
            Some(i) => Some((ps[0], i)),
            None => first_resolving(reg, parts, ps.drop_first()),
        }
    }
}

/// The query that the predicates resolve to, if any order of them names a registered index.
pub open spec fn prepare(record_type: Seq<char>, reg: Seq<IndexView>, parts: Seq<PartView>) -> Option<
    PreparedView,
> {
    match first_resolving(reg, parts, orders(parts.len())) {
        Some((p, i)) => Some(
            (perm_index_name(parts, p), record_type, reg[i], perm_plaintexts(parts, p)),
        ),
        None => None,
    }
}

/// What building a query from the predicates `parts` returns.
pub open spec fn build_spec(
    record_type: Seq<char>,
    reg: Seq<IndexView>,
    parts: Seq<PartView>,
    r: Result<PreparedQuery, QueryError>,
) -> bool {
    if parts.len() != 1 && parts.len() != 2 {
        r matches Err(QueryError::InvalidQuery(_))
    } else {
        match prepare(record_type, reg, parts) {
            Some(v) => r matches Ok(q) && q@ == v,
            None => r matches Err(QueryError::UnresolvableQuery(f)) && f@ == join(
                parts.map_values(|x: PartView| x.0),
                seq![','],
            ),
        }
    }
}

pub proof fn lemma_find_index(reg: Seq<IndexView>, name: Seq<char>, t: IndexType)
    ensures
        match find_index(reg, name, t) {
            Some(i) => 0 <= i < reg.len() && index_matches(reg[i], name, t) && forall|j: int|
                0 <= j < i ==> !index_matches(#[trigger] reg[j], name, t),
            None => forall|j: int| 0 <= j < reg.len() ==> !index_matches(#[trigger] reg[j], name, t),
        },
    decreases reg.len(),
{
    if reg.len() > 0 {
        lemma_find_index(reg.drop_first(), name, t);
        if !index_matches(reg[0], name, t) {
            assert forall|j: int| 0 < j < reg.len() implies reg[j] == reg.drop_first()[j - 1] by {}
        }
    }
}

/// A two-field index over `a` (exact) and `b` (prefix) serves the two predicates given in
/// either order: both resolve to the same index, with the plaintexts composed in the
/// index's field order. The one case left out is a second index registered over the same
/// fields in the opposite order, which then serves the predicates given in that order.
pub proof fn lemma_compound_order_independent(
    record_type: Seq<char>,
    reg: Seq<IndexView>,
    a: Seq<char>,
    pa: Seq<u8>,
    b: Seq<char>,
    pb: Seq<u8>,
)
    requires
        find_index(
            reg,
            join(seq![a, b], seq!['#']),
            IndexType::Compound2(SingleIndex::Exact, SingleIndex::Prefix),
        ) is Some,
        find_index(
            reg,
            join(seq![b, a], seq!['#']),
            IndexType::Compound2(SingleIndex::Prefix, SingleIndex::Exact),
        ) is None,
    ensures
        ({
            let q1 = seq![(a, SingleIndex::Exact, pa), (b, SingleIndex::Prefix, pb)];
            let q2 = seq![(b, SingleIndex::Prefix, pb), (a, SingleIndex::Exact, pa)];
            prepare(record_type, reg, q1) is Some && prepare(record_type, reg, q1) == prepare(
                record_type,
                reg,
                q2,
            )
        }),
{
    let q1: Seq<PartView> = seq![(a, SingleIndex::Exact, pa), (b, SingleIndex::Prefix, pb)];
    let q2: Seq<PartView> = seq![(b, SingleIndex::Prefix, pb), (a, SingleIndex::Exact, pa)];
    let ab = seq![0usize, 1usize];
    let ba = seq![1usize, 0usize];
    let ps = orders(2);
    assert(perm_names(q1, ab) =~= seq![a, b]);
    assert(perm_names(q2, ab) =~= seq![b, a]);
    assert(perm_names(q2, ba) =~= seq![a, b]);
    assert(perm_plaintexts(q1, ab) =~= seq![pa, pb]);
    assert(perm_plaintexts(q2, ba) =~= seq![pa, pb]);
    assert(ps[0] == ab && ps.drop_first()[0] == ba);
    assert(ps.drop_first().len() == 1);
    let kab = IndexType::Compound2(SingleIndex::Exact, SingleIndex::Prefix);
    let kba = IndexType::Compound2(SingleIndex::Prefix, SingleIndex::Exact);
    assert(perm_kind(q1, ab) == kab);
    assert(perm_kind(q2, ab) == kba);
    assert(perm_kind(q2, ba) == kab);
    let i = find_index(reg, join(seq![a, b], seq!['#']), kab)->Some_0;
    assert(first_resolving(reg, q1, ps) == Some((ab, i)));
    assert(first_resolving(reg, q2, ps.drop_first()) == Some((ba, i)));
    assert(first_resolving(reg, q2, ps) == Some((ba, i)));
}

/// A query ready to be turned into a search term.
pub struct PreparedQuery {
    index_name: String,
    record_type: String,
    index: IndexDefinition,
    plaintext: Vec<Plaintext>,
}

impl View for PreparedQuery {
    type V = PreparedView;

    closed spec fn view(&self) -> PreparedView {
        (
            self.index_name@,
            self.record_type@,
            self.index@,
            self.plaintext@.map_values(|p: Plaintext| p.bytes@),
        )
    }
}

/// The registered indexes of one stored type.
pub struct PreparedQueryBuilder {
    pub record_type: String,
    pub indexes: Vec<IndexDefinition>,
}

impl PreparedQueryBuilder {
    pub fn new(record_type: &str, indexes: Vec<IndexDefinition>) -> (r: PreparedQueryBuilder)
        ensures
            r.record_type@ == record_type@,
            r.indexes@ == indexes@,
    {
        PreparedQueryBuilder { record_type: String::from_str(record_type), indexes }
    }

    /// The position of the first registered index with this name and these kinds.
    pub fn index_by_name(&self, name: &String, index_type: IndexType) -> (r: Option<usize>)
        ensures
            match find_index(indexes_view(self.indexes@), name@, index_type) {
                Some(i) => r matches Some(k) && k == i,
                None => r is None,
            },
    {
        let ghost reg = indexes_view(self.indexes@);
        proof {
            lemma_find_index(reg, name@, index_type);
        }
        let mut i: usize = 0;
        while i < self.indexes.len()
            invariant
                i <= reg.len(),
                reg == indexes_view(self.indexes@),
                forall|j: int| 0 <= j < i ==> !index_matches(#[trigger] reg[j], name@, index_type),
            decreases reg.len() - i,
        {
            let d = &self.indexes[i];
            assert(reg[i as int] == (d.name@, d.index_type));
            if d.name == *name && d.index_type == index_type {
                proof {
                    lemma_find_index(reg, name@, index_type);
                    match find_index(reg, name@, index_type) {
                        Some(k) => {
                            if k < i {
                                assert(!index_matches(reg[k], name@, index_type));
                            }
                            if k > i {
                                assert(index_matches(reg[i as int], name@, index_type));
                            }
                        },
                        None => {
                            assert(index_matches(reg[i as int], name@, index_type));
                        },
                    }
                }
                return Some(i);
            }
            i = i + 1;
        }
        proof {
            lemma_find_index(reg, name@, index_type);
            match find_index(reg, name@, index_type) {
                Some(k) => {
                    assert(!index_matches(reg[k], name@, index_type));
                },
                None => {},
            }
        }
        None
    }

    /// Resolves the predicates to a registered index: each order of them is tried in
    /// turn, and the first whose canonical name and kinds are registered wins.
    pub fn build(&self, parts: Vec<(String, SingleIndex, Plaintext)>) -> (r: Result<
        PreparedQuery,
        QueryError,
    >)
        ensures
            build_spec(
                self.record_type@,
                indexes_view(self.indexes@),
                parts_view(parts@),
                r,
            ),
    {
        let ghost reg = indexes_view(self.indexes@);
        let ghost pv = parts_view(parts@);
        let n = parts.len();
        if n != 1 && n != 2 {
            return Err(QueryError::InvalidQuery(String::from_str("a query takes one or two predicates")));
        }
        let ps = position_orders(n);
        let ghost psv = ps@.map_values(|p: Vec<usize>| p@);
        let mut k: usize = 0;
        assert(psv.skip(0) =~= psv);
        while k < ps.len()
            invariant
                k <= ps@.len(),
                psv == ps@.map_values(|p: Vec<usize>| p@),
                psv == orders(n as nat),
                n == pv.len(),
                n == 1 || n == 2,
                pv == parts_view(parts@),
                reg == indexes_view(self.indexes@),
                first_resolving(reg, pv, orders(n as nat)) == first_resolving(
                    reg,
                    pv,
                    psv.skip(k as int),
                ),
            decreases ps@.len() - k,
        {
            let p = &ps[k];
            assert(p@ == psv[k as int]);
            assert(psv.skip(k as int)[0] == psv[k as int]);
            let ghost pp = p@;
            let mut names: Vec<String> = Vec::new();
            let mut plaintexts: Vec<Plaintext> = Vec::new();
            let mut j: usize = 0;
            while j < p.len()
                invariant
                    pp == p@,
                    j <= pp.len(),
                    pp.len() == n,
                    forall|t: int| 0 <= t < pp.len() ==> #[trigger] pp[t] < n,
                    pv == parts_view(parts@),
                    n == pv.len(),
                    names@.len() == j,
                    plaintexts@.len() == j,
                    forall|t: int| 0 <= t < j ==> #[trigger] names@[t]@ == pv[pp[t] as int].0,
                    forall|t: int|
                        0 <= t < j ==> #[trigger] plaintexts@[t].bytes@ == pv[pp[t] as int].2,
                decreases pp.len() - j,
            {
                let x = &parts[p[j]];
                names.push(x.0.clone());
                plaintexts.push(x.2.copy());
                j = j + 1;
            }
            assert(strings_view(names@) =~= perm_names(pv, pp));
            let index_name = join_strings(&names, "#");
            proof {
                reveal_strlit("#");
                assert("#"@ =~= seq!['#']);
            }
            let index_type = if n == 1 {
                IndexType::Single(parts[p[0]].1)
            } else {
                IndexType::Compound2(parts[p[0]].1, parts[p[1]].1)
            };
            assert(index_type == perm_kind(pv, pp));
            proof {
                lemma_find_index(reg, index_name@, index_type);
            }
            assert(index_name@ == perm_index_name(pv, pp));
            match self.index_by_name(&index_name, index_type) {
                Some(i) => {
                    assert(reg[i as int] == self.indexes@[i as int]@);
                    assert(plaintexts@.map_values(|x: Plaintext| x.bytes@) =~= perm_plaintexts(pv, pp));
                    let q = PreparedQuery {
                        index_name,
                        record_type: self.record_type.clone(),
                        index: self.indexes[i].copy(),
                        plaintext: plaintexts,
                    };
                    assert(find_index(reg, index_name@, index_type) == Some(i as int));
                    assert(psv.skip(k as int).len() > 0);
                    assert(first_resolving(reg, pv, psv.skip(k as int)) == Some((pp, i as int)));
                    assert(q@.1 == self.record_type@);
                    assert(q@.2 == reg[i as int]);
                    assert(q@.3 == perm_plaintexts(pv, pp));
                    return Ok(q);
                },
                None => {
                    assert(psv.skip(k as int).drop_first() =~= psv.skip(k + 1));
                },
            }
            k = k + 1;
        }
        assert(psv.skip(k as int).len() == 0);
        let mut fields: Vec<String> = Vec::new();
        let mut j: usize = 0;
        while j < n
            invariant
                j <= n,
                n == pv.len(),
                pv == parts_view(parts@),
                fields@.len() == j,
                forall|t: int| 0 <= t < j ==> #[trigger] fields@[t]@ == pv[t].0,
            decreases n - j,
        {
            fields.push(parts[j].0.clone());
            j = j + 1;
        }
        assert(strings_view(fields@) =~= pv.map_values(|x: PartView| x.0));
        let f = join_strings(&fields, ",");
        proof {
            reveal_strlit(",");
            assert(","@ =~= seq![',']);
        }
        Err(QueryError::UnresolvableQuery(f))
    }
}

} // verus!

verus! {

/// Where no order of the fields names a registered index, the query is refused
/// rather than answered with nothing.
pub proof fn lemma_unregistered_fields_unresolvable(
    record_type: Seq<char>,
    reg: Seq<IndexView>,
    parts: Seq<PartView>,
)
    requires
        parts.len() == 1 || parts.len() == 2,
        forall|j: int, o: int|
            0 <= j < reg.len() && 0 <= o < orders(parts.len()).len() ==> (#[trigger] reg[j]).0
                != perm_index_name(parts, #[trigger] orders(parts.len())[o]),
    ensures
        prepare(record_type, reg, parts) is None,
{
    let ps = orders(parts.len());
    assert forall|o: int| 0 <= o < ps.len() implies find_index(
        reg,
        perm_index_name(parts, #[trigger] ps[o]),
        perm_kind(parts, ps[o]),
    ) is None by {
        lemma_find_index(reg, perm_index_name(parts, ps[o]), perm_kind(parts, ps[o]));
        match find_index(reg, perm_index_name(parts, ps[o]), perm_kind(parts, ps[o])) {
            Some(i) => {
                assert(reg[i].0 != perm_index_name(parts, ps[o]));
            },
            None => {},
        }
    }
    if parts.len() == 1 {
        assert(find_index(reg, perm_index_name(parts, ps[0]), perm_kind(parts, ps[0])) is None);
        assert(ps.drop_first().len() == 0);
    } else {
        assert(find_index(reg, perm_index_name(parts, ps[0]), perm_kind(parts, ps[0])) is None);
        assert(find_index(reg, perm_index_name(parts, ps[1]), perm_kind(parts, ps[1])) is None);
        assert(ps.drop_first()[0] == ps[1]);
        assert(ps.drop_first().drop_first().len() == 0);
        assert(first_resolving(reg, parts, ps.drop_first().drop_first()) is None);
        assert(first_resolving(reg, parts, ps.drop_first()) is None);
    }
}

/// What the cryptographic service computes for a query; only a single binary value
/// can serve as a lookup key.
#[derive(PartialEq, Eq, Debug)]
pub enum IndexTerm {
    Binary(Vec<u8>),
    BinaryVec(Vec<Vec<u8>>),
    BitMap(Vec<u16>),
    OreFull(Vec<u8>),
    OreArray(Vec<Vec<u8>>),
    OreLeft(Vec<u8>),
    Null,
}

impl PreparedQuery {
    pub fn index_name(&self) -> (r: &String)
        ensures
            r@ == self@.0,
    {
        &self.index_name
    }

    pub fn record_type(&self) -> (r: &String)
        ensures
            r@ == self@.1,
    {
        &self.record_type
    }

    pub fn index(&self) -> (r: &IndexDefinition)
        ensures
            r@ == self@.2,
    {
        &self.index
    }

    /// The plaintexts, composed in the index's field order.
    pub fn plaintexts(&self) -> (r: &Vec<Plaintext>)
        ensures
            r@.map_values(|p: Plaintext| p.bytes@) == self@.3,
    {
        &self.plaintext
    }

    /// The context that binds the term to the stored type and the index: `type#index`.
    pub fn info(&self) -> (r: String)
        ensures
            r@ == self@.1 + seq!['#'] + self@.0,
    {
        let mut r = self.record_type.clone();
        r.append("#");
        r.append(self.index_name.as_str());
        proof {
            reveal_strlit("#");
            assert("#"@ =~= seq!['#']);
        }
        r
    }

    /// The search term from what the service computed: it must be one binary value.
    pub fn term_from(index_term: IndexTerm) -> (r: Result<Vec<u8>, QueryError>)
        ensures
            match index_term {
                IndexTerm::Binary(x) => r matches Ok(t) && t@ == x@,
                _ => r matches Err(QueryError::UnexpectedTermShape(_)),
            },
    {
        match index_term {
            IndexTerm::Binary(x) => Ok(x),
            _ => Err(
                QueryError::UnexpectedTermShape(
                    String::from_str("the returned term is not a single binary value"),
                ),
            ),
        }
    }
}

/// A builder of a query over a stored type; `B` is the storage backend it runs on.
pub struct QueryBuilder<B = ()> {
    parts: Vec<(String, SingleIndex, Plaintext)>,
    storage: B,
}

impl<B> QueryBuilder<B> {
    /// The predicates added so far, in order.
    pub closed spec fn parts_spec(&self) -> Seq<PartView> {
        parts_view(self.parts@)
    }

    pub fn with_backend(backend: B) -> (r: QueryBuilder<B>)
        ensures
            r.parts_spec() == Seq::<PartView>::empty(),
            r.storage_spec() == backend,
    {
        let r = QueryBuilder { parts: Vec::new(), storage: backend };
        assert(r.parts_spec() =~= Seq::<PartView>::empty());
        r
    }

    pub closed spec fn storage_spec(&self) -> B {
        self.storage
    }

    pub fn storage(&self) -> (r: &B)
        ensures
            *r == self.storage_spec(),
    {
        &self.storage
    }

    /// Adds an exact-match predicate on the field `name`.
    pub fn eq(self, name: &str, plaintext: Plaintext) -> (r: QueryBuilder<B>)
        ensures
            r.parts_spec() == self.parts_spec().push((name@, SingleIndex::Exact, plaintext.bytes@)),
            r.storage_spec() == self.storage_spec(),
    {
        let mut parts = self.parts;
        parts.push((String::from_str(name), SingleIndex::Exact, plaintext));
        let r = QueryBuilder { parts, storage: self.storage };
        assert(r.parts_spec() =~= self.parts_spec().push(
            (name@, SingleIndex::Exact, plaintext.bytes@),
        ));
        r
    }

    /// Adds a prefix predicate on the field `name`.
    pub fn starts_with(self, name: &str, plaintext: Plaintext) -> (r: QueryBuilder<B>)
        ensures
            r.parts_spec() == self.parts_spec().push(
                (name@, SingleIndex::Prefix, plaintext.bytes@),
            ),
            r.storage_spec() == self.storage_spec(),
    {
        let mut parts = self.parts;
        parts.push((String::from_str(name), SingleIndex::Prefix, plaintext));
        let r = QueryBuilder { parts, storage: self.storage };
        assert(r.parts_spec() =~= self.parts_spec().push(
            (name@, SingleIndex::Prefix, plaintext.bytes@),
        ));
        r
    }

    /// Resolves the predicates against the indexes registered for the stored type.
    pub fn build(self, registry: &PreparedQueryBuilder) -> (r: Result<PreparedQuery, QueryError>)
        ensures
            build_spec(
                registry.record_type@,
                indexes_view(registry.indexes@),
                self.parts_spec(),
                r,
            ),
    {
        registry.build(self.parts)
    }
}

impl QueryBuilder<()> {
    pub fn new() -> (r: QueryBuilder<()>)
        ensures
            r.parts_spec() == Seq::<PartView>::empty(),
    {
        QueryBuilder::with_backend(())
    }
}

} // verus!
