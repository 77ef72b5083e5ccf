//! Upstream query engine: a depth-first, backtracking walk over the
//! parent-address lists recorded in tag-data records.
//!
//! A query is an ordered sequence of steps; each step selects, among the
//! parents of the current tag, those that match (by stored name, by position
//! in the parent array, by the tag id found at the parent's address, or by a
//! caller-supplied predicate over the decoded record).  A matching parent
//! consumes the step and the walk ascends; the soft predicate variant may
//! instead keep the step open and retry it one level further up.  Every
//! ancestor chain that consumes the whole query is reported.
//!
//! The engine re-reads each tag's parent block directly from the store, and
//! decodes candidate records on demand; a parent whose record cannot be
//! decoded is excluded from matching without aborting the rest of the
//! search.  A chain never revisits an address it already contains: this is
//! the engine's defence against cyclic parent graphs (which a well-formed
//! database does not contain), and it also bounds the recursion by the size
//! of the store.

use vstd::prelude::*;
use vstd::seq_lib::*;
use vstd::set_lib::lemma_int_range;
use vstd::set_lib::lemma_len_subset;
use vstd::set_lib::set_int_range;

use crate::layout::spec_read_parent_entries;
use crate::layout::spec_read_tag_data;
use crate::records::AddressEntry;
use crate::records::AddressList;
use crate::records::DatabaseReadErrorKind;
use crate::records::TagData;
use crate::records::TagDataView;
use crate::records::TagType;
use crate::records::TagTypeView;
use crate::reader::DatabaseReader;

verus! {

/// A caller-supplied criterion over a fully decoded tag record: one query
/// step may accept a parent exactly when the predicate holds of the record
/// found at the parent's address.  `spec_eval` gives the predicate's
/// mathematical meaning and `eval` computes it.
pub trait TagPredicate: Sized {
    spec fn spec_eval(&self, d: TagDataView<TagTypeView>) -> bool;

    fn eval(&self, d: &TagData<TagType>) -> (r: bool)
        ensures
            r == self.spec_eval(d@),
    ;
}

/// A predicate that holds when the record's payload is the given integer.
pub struct IntegerEquals {
    pub value: u64,
}

impl TagPredicate for IntegerEquals {
    open spec fn spec_eval(&self, d: TagDataView<TagTypeView>) -> bool {
        d.tag_data matches TagTypeView::Integer(v) && v == self.value
    }

    fn eval(&self, d: &TagData<TagType>) -> (r: bool) {
        match &d.tag_data {
            TagType::Integer(v) => *v == self.value,
            _ => false,
        }
    }
}

/// A predicate that holds when the record was stored under the given name.
pub struct TagNameEquals {
    pub name: u64,
}

impl TagPredicate for TagNameEquals {
    open spec fn spec_eval(&self, d: TagDataView<TagTypeView>) -> bool {
        d.tag_name == self.name
    }

    fn eval(&self, d: &TagData<TagType>) -> (r: bool) {
        d.tag_name == self.name
    }
}

/// One step of an upstream query: match a parent by its stored name id, by
/// its position in the parent array, by the tag id of the record at its
/// address, or by a predicate over that record.  The strict predicate form
/// consumes the step only on success; the upstream form also accepts the
/// parent on failure, leaving the step to be retried one level further up.
pub enum QueryEntry<P> {
    Name(u64),
    ArrayIndex(u64),
    Id(u64),
    Conditional(P),
    UpstreamConditional(P),
}

/// The result of an upstream query: `Found` carries every matched ancestor
/// chain; `Match` reports the single chain of a query that was already fully
/// consumed when the search started; `NoMatch` means no chain satisfies
/// the query.
pub enum SearchResult {
    Found(Vec<AddressList>),
    Match(Vec<AddressEntry>),
    NoMatch,
}

/// The number of parents the search reads for a record: its declared parent
/// block size in 16-byte entries.
pub open spec fn spec_parent_count(td: TagDataView<TagTypeView>) -> u64 {
    td.tag_parents_size / 16
}

/// What one query step says about the parent `entry` found at position
/// `position` of the current parent array: `None` when the parent does not
/// match, `Some(true)` when it matches and consumes the step, `Some(false)`
/// when the soft predicate fails but the parent is kept with the step left
/// open.
pub open spec fn spec_step_outcome<P: TagPredicate>(
    s: Seq<u8>,
    anchor: int,
    step: QueryEntry<P>,
    entry: AddressEntry,
    position: int,
) -> Option<bool> {
    match step {
        QueryEntry::Name(n) => if entry.name == n {
            Some(true)
        } else {
            None
        },
        QueryEntry::ArrayIndex(x) => if position == x {
            Some(true)
        } else {
            None
        },
        QueryEntry::Id(id) => match spec_read_tag_data(s, anchor, entry.address) {
            Ok(d) => if d.tag_id == id {
                Some(true)
            } else {
                None
            },
            Err(_) => None,
        },
        QueryEntry::Conditional(p) => match spec_read_tag_data(s, anchor, entry.address) {
            Ok(d) => if p.spec_eval(d) {
                Some(true)
            } else {
                None
            },
            Err(_) => None,
        },
        QueryEntry::UpstreamConditional(p) => match spec_read_tag_data(s, anchor, entry.address) {
            Ok(d) => Some(p.spec_eval(d)),
            Err(_) => None,
        },
    }
}

/// The address of the `i`-th node of a walk that starts at `addr0` and
/// ascends along `chain` (node 0 is the start tag).
pub open spec fn spec_node_address(addr0: u64, chain: Seq<AddressEntry>, i: int) -> u64 {
    if i == 0 {
        addr0
    } else {
        chain[i - 1].address
    }
}

/// The parent count at the `i`-th node of the walk: the caller-supplied
/// count for the start tag, and the decoded record's count further up.
pub open spec fn spec_node_count(
    s: Seq<u8>,
    anchor: int,
    addr0: u64,
    c0: u64,
    chain: Seq<AddressEntry>,
    i: int,
) -> u64 {
    if i == 0 {
        c0
    } else {
        spec_parent_count(spec_read_tag_data(s, anchor, chain[i - 1].address)->Ok_0)
    }
}

/// Validity of the `i`-th link of an ancestor chain: the entry is one of the
/// parents of node `i` (whose parent block must be readable), the query step
/// in force there accepts it (`js[i+1]` records whether the step was
/// consumed), the record at the entry's address decodes, and the address was
/// not visited earlier in the chain.
pub open spec fn spec_link_ok<P: TagPredicate>(
    s: Seq<u8>,
    anchor: int,
    q: Seq<QueryEntry<P>>,
    addr0: u64,
    c0: u64,
    chain: Seq<AddressEntry>,
    js: Seq<int>,
    i: int,
) -> bool {
    let cnt = spec_node_count(s, anchor, addr0, c0, chain, i);
    let naddr = spec_node_address(addr0, chain, i);
    let pb = spec_read_parent_entries(s, anchor, naddr, cnt);
    &&& pb is Ok
    &&& exists|p: int|
        0 <= p < cnt && (#[trigger] pb->Ok_0[p]) == chain[i] && spec_step_outcome(
            s,
            anchor,
            q[js[i]],
            chain[i],
            p,
        ) == Some(js[i + 1] == js[i] + 1)
    &&& (js[i + 1] == js[i] + 1 || js[i + 1] == js[i])
    &&& spec_read_tag_data(s, anchor, chain[i].address) is Ok
    &&& forall|j: int| 0 <= j < i ==> chain[j].address != chain[i].address
}

/// Validity of a whole walk: `js` records the query position before each
/// node (`js[0] == 0`), every link is valid, and no step position leaves the
/// query before the walk ends.
pub open spec fn spec_valid_steps<P: TagPredicate>(
    s: Seq<u8>,
    anchor: int,
    q: Seq<QueryEntry<P>>,
    addr0: u64,
    c0: u64,
    chain: Seq<AddressEntry>,
    js: Seq<int>,
) -> bool {
    &&& js.len() == chain.len() + 1
    &&& js[0] == 0
    &&& forall|i: int|
        0 <= i < chain.len() ==> #[trigger] spec_link_ok(s, anchor, q, addr0, c0, chain, js, i)
    &&& forall|i: int| 0 <= i < chain.len() ==> 0 <= #[trigger] js[i] < q.len()
}

/// A complete ancestor chain: a valid walk from the start tag that has
/// consumed the whole query when it ends.
pub open spec fn spec_complete_chain<P: TagPredicate>(
    s: Seq<u8>,
    anchor: int,
    q: Seq<QueryEntry<P>>,
    addr0: u64,
    c0: u64,
    chain: Seq<AddressEntry>,
) -> bool {
    exists|js: Seq<int>|
        #[trigger] spec_valid_steps(s, anchor, q, addr0, c0, chain, js) && js[chain.len() as int]
            == q.len()
}

/// Soundness of a list of reported chains: every one is a complete chain
/// that properly extends `prefix`, carries its own length as count, and no
/// chain is reported twice.
pub open spec fn spec_chains_sound<P: TagPredicate>(
    s: Seq<u8>,
    anchor: int,
    q: Seq<QueryEntry<P>>,
    addr0: u64,
    c0: u64,
    prefix: Seq<AddressEntry>,
    ls: Seq<AddressList>,
) -> bool {
    &&& forall|k: int|
        0 <= k < ls.len() ==> {
            let c = #[trigger] ls[k];
            &&& spec_complete_chain(s, anchor, q, addr0, c0, c.array@)
            &&& c.address_count == c.array@.len()
            &&& prefix.is_prefix_of(c.array@)
            &&& c.array@.len() > prefix.len()
        }
    &&& forall|k1: int, k2: int|
        0 <= k1 < k2 < ls.len() ==> (#[trigger] ls[k1]).array@ != (#[trigger] ls[k2]).array@
}

/// A chain completing the whole query that extends `prefix` by at least one
/// entry.
pub open spec fn spec_extends_complete<P: TagPredicate>(
    s: Seq<u8>,
    anchor: int,
    q: Seq<QueryEntry<P>>,
    addr0: u64,
    c0: u64,
    prefix: Seq<AddressEntry>,
    chain: Seq<AddressEntry>,
) -> bool {
    &&& spec_complete_chain(s, anchor, q, addr0, c0, chain)
    &&& prefix.is_prefix_of(chain)
    &&& chain.len() > prefix.len()
}

/// Completeness of a list of reported chains: every complete chain that
/// properly extends `prefix` is reported.
pub open spec fn spec_chains_complete<P: TagPredicate>(
    s: Seq<u8>,
    anchor: int,
    q: Seq<QueryEntry<P>>,
    addr0: u64,
    c0: u64,
    prefix: Seq<AddressEntry>,
    ls: Seq<AddressList>,
) -> bool {
    forall|chain: Seq<AddressEntry>|
        #[trigger] spec_extends_complete(s, anchor, q, addr0, c0, prefix, chain) ==> exists|k: int|
            0 <= k < ls.len() && (#[trigger] ls[k]).array@ == chain
}

/// A prefix of a valid walk is itself a valid walk.
proof fn lemma_valid_steps_prefix<P: TagPredicate>(
    s: Seq<u8>,
    anchor: int,
    q: Seq<QueryEntry<P>>,
    addr0: u64,
    c0: u64,
    chain: Seq<AddressEntry>,
    js: Seq<int>,
    m: int,
)
    requires
        spec_valid_steps(s, anchor, q, addr0, c0, chain, js),
        0 <= m <= chain.len(),
    ensures
        spec_valid_steps(s, anchor, q, addr0, c0, chain.subrange(0, m), js.subrange(0, m + 1)),
{
    let ch = chain.subrange(0, m);
    let jp = js.subrange(0, m + 1);
    assert forall|i: int| 0 <= i < ch.len() implies #[trigger] spec_link_ok(
        s,
        anchor,
        q,
        addr0,
        c0,
        ch,
        jp,
        i,
    ) by {
        assert(spec_link_ok(s, anchor, q, addr0, c0, chain, js, i));
        assert(spec_node_address(addr0, ch, i) == spec_node_address(addr0, chain, i));
        assert(spec_node_count(s, anchor, addr0, c0, ch, i) == spec_node_count(
            s,
            anchor,
            addr0,
            c0,
            chain,
            i,
        ));
        let cnt = spec_node_count(s, anchor, addr0, c0, chain, i);
        let naddr = spec_node_address(addr0, chain, i);
        let pb = spec_read_parent_entries(s, anchor, naddr, cnt);
        let p = choose|p: int|
            0 <= p < cnt && (#[trigger] pb->Ok_0[p]) == chain[i] && spec_step_outcome(
                s,
                anchor,
                q[js[i]],
                chain[i],
                p,
            ) == Some(js[i + 1] == js[i] + 1);
        assert(0 <= p < cnt && pb->Ok_0[p] == ch[i] && spec_step_outcome(
            s,
            anchor,
            q[jp[i]],
            ch[i],
            p,
        ) == Some(jp[i + 1] == jp[i] + 1));
    }
}

/// The step value that a query step hands on does not depend on which
/// parent position witnessed the match.
proof fn lemma_outcome_functional<P: TagPredicate>(
    s: Seq<u8>,
    anchor: int,
    step: QueryEntry<P>,
    entry: AddressEntry,
    p1: int,
    p2: int,
    b1: bool,
    b2: bool,
)
    requires
        spec_step_outcome(s, anchor, step, entry, p1) == Some(b1),
        spec_step_outcome(s, anchor, step, entry, p2) == Some(b2),
    ensures
        b1 == b2,
{
}

/// The step positions of a valid walk are determined by the chain itself:
/// two valid walks over the same chain take the same positions.
proof fn lemma_steps_unique<P: TagPredicate>(
    s: Seq<u8>,
    anchor: int,
    q: Seq<QueryEntry<P>>,
    addr0: u64,
    c0: u64,
    chain: Seq<AddressEntry>,
    js1: Seq<int>,
    js2: Seq<int>,
    upto: int,
)
    requires
        spec_valid_steps(s, anchor, q, addr0, c0, chain, js1),
        spec_valid_steps(s, anchor, q, addr0, c0, chain, js2),
        0 <= upto <= chain.len(),
    ensures
        js1[upto] == js2[upto],
    decreases upto,
{
    if upto > 0 {
        lemma_steps_unique(s, anchor, q, addr0, c0, chain, js1, js2, upto - 1);
        let i = upto - 1;
        assert(spec_link_ok(s, anchor, q, addr0, c0, chain, js1, i));
        assert(spec_link_ok(s, anchor, q, addr0, c0, chain, js2, i));
        let cnt = spec_node_count(s, anchor, addr0, c0, chain, i);
        let naddr = spec_node_address(addr0, chain, i);
        let pb = spec_read_parent_entries(s, anchor, naddr, cnt);
        let p1 = choose|p: int|
            0 <= p < cnt && (#[trigger] pb->Ok_0[p]) == chain[i] && spec_step_outcome(
                s,
                anchor,
                q[js1[i]],
                chain[i],
                p,
            ) == Some(js1[i + 1] == js1[i] + 1);
        let p2 = choose|p: int|
            0 <= p < cnt && (#[trigger] pb->Ok_0[p]) == chain[i] && spec_step_outcome(
                s,
                anchor,
                q[js2[i]],
                chain[i],
                p,
            ) == Some(js2[i + 1] == js2[i] + 1);
        lemma_outcome_functional(
            s,
            anchor,
            q[js1[i]],
            chain[i],
            p1,
            p2,
            js1[i + 1] == js1[i] + 1,
            js2[i + 1] == js2[i] + 1,
        );
    }
}

/// A chain of pairwise distinct addresses below `bound` cannot be longer
/// than `bound`.
proof fn lemma_chain_len_bound(chain: Seq<AddressEntry>, bound: int)
    requires
        bound >= 0,
        forall|i: int| 0 <= i < chain.len() ==> 0 <= (#[trigger] chain[i]).address < bound,
        forall|i: int, j: int|
            0 <= i < j < chain.len() ==> chain[i].address != chain[j].address,
    ensures
        chain.len() <= bound,
{
    let addrs = chain.map_values(|e: AddressEntry| e.address as int);
    assert(addrs.no_duplicates());
    addrs.unique_seq_to_set();
    assert(addrs.to_set().subset_of(set_int_range(0, bound))) by {
        assert forall|x: int| addrs.to_set().contains(x) implies set_int_range(
            0,
            bound,
        ).contains(x) by {
            let i = choose|i: int| 0 <= i < addrs.len() && addrs[i] == x;
            assert(0 <= chain[i].address < bound);
        }
    }
    lemma_int_range(0, bound);
    lemma_len_subset(addrs.to_set(), set_int_range(0, bound));
}

/// Every address on a valid chain lies inside the store, because its record
/// decoded; so a valid chain is never longer than the store.
proof fn lemma_valid_chain_len<P: TagPredicate>(
    s: Seq<u8>,
    anchor: int,
    q: Seq<QueryEntry<P>>,
    addr0: u64,
    c0: u64,
    chain: Seq<AddressEntry>,
    js: Seq<int>,
)
    requires
        anchor >= 0,
        spec_valid_steps(s, anchor, q, addr0, c0, chain, js),
    ensures
        chain.len() <= s.len(),
{
    assert forall|i: int| 0 <= i < chain.len() implies 0 <= (#[trigger] chain[i]).address
        < s.len() by {
        assert(spec_link_ok(s, anchor, q, addr0, c0, chain, js, i));
        assert(spec_read_tag_data(s, anchor, chain[i].address) is Ok);
    }
    assert forall|i: int, j: int|
        0 <= i < j < chain.len() implies chain[i].address != chain[j].address by {
        assert(spec_link_ok(s, anchor, q, addr0, c0, chain, js, j));
    }
    lemma_chain_len_bound(chain, s.len() as int);
}

/// Does the chain built so far already contain this address?
fn contains_address(h: &Vec<AddressEntry>, addr: u64) -> (r: bool)
    ensures
        r == exists|j: int| 0 <= j < h@.len() && (#[trigger] h@[j]).address == addr,
{
    let n: usize = h.len();
    let mut j: usize = 0;
    while j < n
        invariant
            j <= n,
            n == h@.len(),
            forall|k: int| 0 <= k < j ==> (#[trigger] h@[k]).address != addr,
        decreases n - j,
    {
        if h[j].address == addr {
            return true;
        }
        j = j + 1;
    }
    false
}

/// An element-wise copy of an address chain.
fn clone_entries(v: &Vec<AddressEntry>) -> (r: Vec<AddressEntry>)
    ensures
        r@ == v@,
{
    let n: usize = v.len();
    let mut out: Vec<AddressEntry> = Vec::new();
    let mut i: usize = 0;
    while i < n
        invariant
            i <= n,
            n == v@.len(),
            out@ == v@.subrange(0, i as int),
        decreases n - i,
    {
        out.push(v[i]);
        proof {
            assert(v@.subrange(0, i + 1) =~= v@.subrange(0, i as int).push(v@[i as int]));
        }
        i = i + 1;
    }
    proof {
        assert(v@.subrange(0, n as int) =~= v@);
    }
    out
}

/// Is this exact chain already among the collected matches?
fn matches_contain(matches: &Vec<AddressList>, c: &AddressList) -> (r: bool)
    ensures
        r == exists|k: int|
            0 <= k < matches@.len() && (#[trigger] matches@[k]).array@ == c.array@,
{
    let n: usize = matches.len();
    let mut k: usize = 0;
    while k < n
        invariant
            k <= n,
            n == matches@.len(),
            forall|j: int| 0 <= j < k ==> (#[trigger] matches@[j]).array@ != c.array@,
        decreases n - k,
    {
        let m: &AddressList = &matches[k];
        if m.array.len() == c.array.len() {
            let mut same: bool = true;
            let ln: usize = m.array.len();
            let mut t: usize = 0;
            while t < ln
                invariant
                    t <= ln,
                    ln == m.array@.len(),
                    ln == c.array@.len(),
                    same == (forall|u: int| 0 <= u < t ==> m.array@[u] == c.array@[u]),
                decreases ln - t,
            {
                if m.array[t] != c.array[t] {
                    same = false;
                    proof {
                        assert(m.array@[t as int] != c.array@[t as int]);
                    }
                    t = ln;
                } else {
                    t = t + 1;
                }
            }
            if same {
                proof {
                    assert(m.array@ =~= c.array@);
                }
                return true;
            } else {
                proof {
                    assert(m.array@ != c.array@);
                }
            }
        } else {
            proof {
                assert(m.array@ != c.array@);
            }
        }
        k = k + 1;
    }
    false
}

/// One scan candidate covers a chain when the chain's entry right after the
/// prefix is the candidate's entry, and the chain's walk leaves that entry
/// at the step position the candidate hands on.
pub open spec fn spec_cand_covers<P: TagPredicate>(
    s: Seq<u8>,
    anchor: int,
    q: Seq<QueryEntry<P>>,
    addr0: u64,
    c0: u64,
    prefix: Seq<AddressEntry>,
    cand: (AddressEntry, usize),
    chain: Seq<AddressEntry>,
) -> bool {
    &&& chain.len() > prefix.len()
    &&& chain[prefix.len() as int] == cand.0
    &&& exists|js_c: Seq<int>|
        #[trigger] spec_valid_steps(s, anchor, q, addr0, c0, chain, js_c) && js_c[chain.len() as int]
            == q.len() && js_c[prefix.len() as int + 1] == cand.1
}

/// A covered chain passes through the candidate's entry right after the
/// prefix, its record decodes, and it either ends exactly there (when the
/// candidate hands on the whole query) or properly extends the prefix plus
/// that entry.
proof fn lemma_cover_extends<P: TagPredicate>(
    s: Seq<u8>,
    anchor: int,
    q: Seq<QueryEntry<P>>,
    addr0: u64,
    c0: u64,
    prefix: Seq<AddressEntry>,
    cand: (AddressEntry, usize),
    chain: Seq<AddressEntry>,
)
    requires
        spec_extends_complete(s, anchor, q, addr0, c0, prefix, chain),
        spec_cand_covers(s, anchor, q, addr0, c0, prefix, cand, chain),
    ensures
        chain.subrange(0, prefix.len() as int + 1) == prefix.push(cand.0),
        cand.1 <= q.len(),
        cand.1 == q.len() ==> chain == prefix.push(cand.0),
        (cand.1 as int) < q.len() ==> spec_extends_complete(
            s,
            anchor,
            q,
            addr0,
            c0,
            prefix.push(cand.0),
            chain,
        ),
        spec_read_tag_data(s, anchor, cand.0.address) is Ok,
        forall|j: int| 0 <= j < prefix.len() ==> (#[trigger] prefix[j]).address != cand.0.address,
{
    let h = prefix.len() as int;
    let js_c = choose|js_c: Seq<int>|
        #[trigger] spec_valid_steps(s, anchor, q, addr0, c0, chain, js_c) && js_c[chain.len() as int]
            == q.len() && js_c[h + 1] == cand.1;
    assert(chain.subrange(0, h + 1) =~= prefix.push(cand.0));
    assert(spec_link_ok(s, anchor, q, addr0, c0, chain, js_c, h));
    assert forall|j: int| 0 <= j < prefix.len() implies (#[trigger] prefix[j]).address
        != cand.0.address by {
        assert(chain[j] == prefix[j]);
        assert(chain[j].address != chain[h].address);
    }
    if cand.1 == q.len() {
        if chain.len() > h + 1 {
            assert(0 <= js_c[h + 1] < q.len());
            assert(false);
        }
        assert(chain =~= prefix.push(cand.0));
    } else {
        if chain.len() == h + 1 {
            assert(js_c[h + 1] == q.len());
            assert(false);
        }
        assert(prefix.push(cand.0).is_prefix_of(chain)) by {
            assert(chain.subrange(0, h + 1) =~= prefix.push(cand.0));
        }
    }
}

/// No chain is covered by a candidate whose next level's parent block
/// cannot be read: one more link would need it.
proof fn lemma_no_cover_child_unreadable<P: TagPredicate>(
    s: Seq<u8>,
    anchor: int,
    q: Seq<QueryEntry<P>>,
    addr0: u64,
    c0: u64,
    prefix: Seq<AddressEntry>,
    cand: (AddressEntry, usize),
    chain: Seq<AddressEntry>,
    d: TagDataView<TagTypeView>,
)
    requires
        spec_extends_complete(s, anchor, q, addr0, c0, prefix, chain),
        (cand.1 as int) < q.len(),
        spec_read_tag_data(s, anchor, cand.0.address) == Ok::<
            TagDataView<TagTypeView>,
            DatabaseReadErrorKind,
        >(d),
        spec_read_parent_entries(s, anchor, cand.0.address, d.tag_parents_size / 16) is Err,
    ensures
        !spec_cand_covers(s, anchor, q, addr0, c0, prefix, cand, chain),
{
    if spec_cand_covers(s, anchor, q, addr0, c0, prefix, cand, chain) {
        let h = prefix.len() as int;
        lemma_cover_extends(s, anchor, q, addr0, c0, prefix, cand, chain);
        let js_c = choose|js_c: Seq<int>|
            #[trigger] spec_valid_steps(s, anchor, q, addr0, c0, chain, js_c) && js_c[chain.len()
                as int] == q.len() && js_c[h + 1] == cand.1;
        assert(chain.len() > h + 1);
        assert(spec_link_ok(s, anchor, q, addr0, c0, chain, js_c, h + 1));
        assert(spec_node_address(addr0, chain, h + 1) == cand.0.address);
        assert(spec_node_count(s, anchor, addr0, c0, chain, h + 1) == d.tag_parents_size / 16);
    }
}

/// After the whole parent array was scanned, every complete chain that
/// properly extends the prefix is covered by one of the collected
/// candidates.
proof fn lemma_initial_cover<P: TagPredicate>(
    s: Seq<u8>,
    anchor: int,
    q: Seq<QueryEntry<P>>,
    addr0: u64,
    c0: u64,
    prefix: Seq<AddressEntry>,
    js: Seq<int>,
    query_index: int,
    offset: u64,
    count: u64,
    cands: Seq<(AddressEntry, usize)>,
    chain: Seq<AddressEntry>,
)
    requires
        spec_valid_steps(s, anchor, q, addr0, c0, prefix, js),
        js[prefix.len() as int] == query_index,
        0 <= query_index < q.len(),
        prefix.len() == 0 ==> offset == addr0 && count == c0,
        prefix.len() > 0 ==> offset == prefix.last().address && spec_read_tag_data(
            s,
            anchor,
            offset,
        ) is Ok && spec_parent_count(spec_read_tag_data(s, anchor, offset)->Ok_0) == count,
        spec_read_parent_entries(s, anchor, offset, count) is Ok,
        forall|p: int|
            0 <= p < count && (#[trigger] spec_step_outcome(
                s,
                anchor,
                q[query_index],
                spec_read_parent_entries(s, anchor, offset, count)->Ok_0[p],
                p,
            )) is Some ==> exists|k: int|
                0 <= k < cands.len() && (#[trigger] cands[k]).0 == spec_read_parent_entries(
                    s,
                    anchor,
                    offset,
                    count,
                )->Ok_0[p] && cands[k].1 == (if spec_step_outcome(
                    s,
                    anchor,
                    q[query_index],
                    spec_read_parent_entries(s, anchor, offset, count)->Ok_0[p],
                    p,
                )->0 {
                    query_index + 1
                } else {
                    query_index
                }),
        spec_extends_complete(s, anchor, q, addr0, c0, prefix, chain),
    ensures
        exists|ck: int|
            0 <= ck < cands.len() && spec_cand_covers(
                s,
                anchor,
                q,
                addr0,
                c0,
                prefix,
                #[trigger] cands[ck],
                chain,
            ),
{
    let h = prefix.len() as int;
    let js_c = choose|js_c: Seq<int>|
        #[trigger] spec_valid_steps(s, anchor, q, addr0, c0, chain, js_c) && js_c[chain.len() as int]
            == q.len();
    lemma_valid_steps_prefix(s, anchor, q, addr0, c0, chain, js_c, h);
    assert(chain.subrange(0, h) =~= prefix);
    lemma_steps_unique(s, anchor, q, addr0, c0, prefix, js_c.subrange(0, h + 1), js, h);
    assert(js_c[h] == query_index);
    assert(spec_link_ok(s, anchor, q, addr0, c0, chain, js_c, h));
    assert(spec_node_address(addr0, chain, h) == offset);
    assert(spec_node_count(s, anchor, addr0, c0, chain, h) == count);
    let pb = spec_read_parent_entries(s, anchor, offset, count);
    let p = choose|p: int|
        0 <= p < count && (#[trigger] pb->Ok_0[p]) == chain[h] && spec_step_outcome(
            s,
            anchor,
            q[js_c[h]],
            chain[h],
            p,
        ) == Some(js_c[h + 1] == js_c[h] + 1);
    assert(spec_step_outcome(s, anchor, q[query_index], pb->Ok_0[p], p) is Some);
    let k = choose|k: int|
        0 <= k < cands.len() && (#[trigger] cands[k]).0 == pb->Ok_0[p] && cands[k].1 == (
        if spec_step_outcome(s, anchor, q[query_index], pb->Ok_0[p], p)->0 {
            query_index + 1
        } else {
            query_index
        });
    assert(cands[k].1 == js_c[h + 1]);
    assert(spec_cand_covers(s, anchor, q, addr0, c0, prefix, cands[k], chain));
}

impl DatabaseReader {
    /// Find every ancestor chain of the tag at `offset` that satisfies the
    /// whole `query`, walking parent lists upward one query step per level
    /// (except soft predicate steps, which may ride along unconsumed).
    ///
    /// `tag_data` is the caller's already-decoded record for the start tag;
    /// its declared parent-block size determines how many parents are read
    /// at the first level.  An empty query is already consumed and reports
    /// `Match` with the empty chain.  If the start tag's own parent block
    /// cannot be read the query fails with the I/O error; a failure while
    /// examining one candidate parent only excludes that parent.  The
    /// result is exact: every reported chain is a complete valid chain, no
    /// chain is reported twice, every complete chain is reported, and
    /// `NoMatch` comes back exactly when no complete chain exists.
    pub fn find_upstream<P: TagPredicate>(
        &self,
        query: &Vec<QueryEntry<P>>,
        offset: u64,
        tag_data: &TagData<TagType>,
    ) -> (r: Result<SearchResult, DatabaseReadErrorKind>)
        ensures
            ({
                let s = self.data@;
                let a = self.current_index_table_offset as int;
                let c0 = tag_data.tag_parents_size / 16;
                let pb = spec_read_parent_entries(s, a, offset, c0);
                &&& (query@.len() == 0 ==> r is Ok && r->Ok_0 is Match && r->Ok_0->Match_0@
                    == Seq::<AddressEntry>::empty())
                &&& (query@.len() > 0 && pb is Err ==> r == Err::<
                    SearchResult,
                    DatabaseReadErrorKind,
                >(DatabaseReadErrorKind::IOError))
                &&& (query@.len() > 0 && pb is Ok ==> r is Ok && (r->Ok_0 is Found || r->Ok_0
                    is NoMatch))
                &&& (query@.len() > 0 && pb is Ok && r is Ok && r->Ok_0 is Found ==> {
                    let ls = r->Ok_0->Found_0;
                    &&& ls@.len() >= 1
                    &&& spec_chains_sound(
                        s,
                        a,
                        query@,
                        offset,
                        c0,
                        Seq::<AddressEntry>::empty(),
                        ls@,
                    )
                    &&& spec_chains_complete(
                        s,
                        a,
                        query@,
                        offset,
                        c0,
                        Seq::<AddressEntry>::empty(),
                        ls@,
                    )
                })
                &&& (query@.len() > 0 && pb is Ok && r is Ok && r->Ok_0 is NoMatch
                    ==> spec_chains_complete(
                    s,
                    a,
                    query@,
                    offset,
                    c0,
                    Seq::<AddressEntry>::empty(),
                    Seq::<AddressList>::empty(),
                ))
            }),
    {
        let hierarchy: Vec<AddressEntry> = Vec::new();
        let ghost c0 = tag_data.tag_parents_size / 16;
        let ghost js0: Seq<int> = seq![0];
        proof {
            assert(spec_valid_steps(
                self.data@,
                self.current_index_table_offset as int,
                query@,
                offset,
                c0,
                Seq::<AddressEntry>::empty(),
                js0,
            ));
        }
        let r = self.upstream_search(
            query,
            0,
            hierarchy,
            offset,
            tag_data,
            Ghost(offset),
            Ghost(c0),
            Ghost(js0),
        );
        r
    }

    /// One level of the recursive upstream walk.  `hierarchy` is the chain
    /// accumulated so far, `offset` the current tag's address, `query_index`
    /// the query position in force, and `tag_data` the current tag's decoded
    /// record (the caller's own record at the first level).  The ghost
    /// arguments carry the walk's origin and the step positions taken.
    /// Recursion terminates because a chain never revisits an address, so
    /// its length is bounded by the store's size.
    fn upstream_search<P: TagPredicate>(
        &self,
        query: &Vec<QueryEntry<P>>,
        query_index: usize,
        hierarchy: Vec<AddressEntry>,
        offset: u64,
        tag_data: &TagData<TagType>,
        Ghost(addr0): Ghost<u64>,
        Ghost(c0): Ghost<u64>,
        Ghost(js): Ghost<Seq<int>>,
    ) -> (r: Result<SearchResult, DatabaseReadErrorKind>)
        requires
            query_index <= query@.len(),
            spec_valid_steps(
                self.data@,
                self.current_index_table_offset as int,
                query@,
                addr0,
                c0,
                hierarchy@,
                js,
            ),
            js[hierarchy@.len() as int] == query_index,
            hierarchy@.len() == 0 ==> offset == addr0 && tag_data.tag_parents_size / 16 == c0,
            hierarchy@.len() > 0 ==> offset == hierarchy@.last().address && spec_read_tag_data(
                self.data@,
                self.current_index_table_offset as int,
                offset,
            ) == Ok::<TagDataView<TagTypeView>, DatabaseReadErrorKind>(tag_data@),
        ensures
            ({
                let s = self.data@;
                let a = self.current_index_table_offset as int;
                let cnt = tag_data.tag_parents_size / 16;
                let pb = spec_read_parent_entries(s, a, offset, cnt);
                &&& (query_index == query@.len() ==> r is Ok && r->Ok_0 is Match
                    && r->Ok_0->Match_0@ == hierarchy@)
                &&& (query_index < query@.len() && pb is Err ==> r == Err::<
                    SearchResult,
                    DatabaseReadErrorKind,
                >(DatabaseReadErrorKind::IOError))
                &&& (query_index < query@.len() && pb is Ok ==> r is Ok && (r->Ok_0 is Found
                    || r->Ok_0 is NoMatch))
                &&& (query_index < query@.len() && pb is Ok && r is Ok && r->Ok_0 is Found ==> {
                    let ls = r->Ok_0->Found_0;
                    &&& ls@.len() >= 1
                    &&& spec_chains_sound(s, a, query@, addr0, c0, hierarchy@, ls@)
                    &&& spec_chains_complete(s, a, query@, addr0, c0, hierarchy@, ls@)
                })
                &&& (query_index < query@.len() && pb is Ok && r is Ok && r->Ok_0 is NoMatch
                    ==> spec_chains_complete(
                    s,
                    a,
                    query@,
                    addr0,
                    c0,
                    hierarchy@,
                    Seq::<AddressList>::empty(),
                ))
            }),
        decreases self.data@.len() - hierarchy@.len(),
    {
        let ghost s = self.data@;
        let ghost a = self.current_index_table_offset as int;
        if query_index == query.len() {
            return Ok(SearchResult::Match(hierarchy));
        }
        let count: u64 = tag_data.tag_parents_size / 16;
        let parents = match self.read_parent_entries(offset, count) {
            Ok(v) => v,
            Err(e) => {
                return Err(e);
            },
        };
        let q_entry: &QueryEntry<P> = &query[query_index];
        // Scan the parent array, collecting every parent the current step
        // accepts, together with the query position it hands to the next
        // level.
        let pcount: usize = parents.len();
        let mut candidates: Vec<(AddressEntry, usize)> = Vec::new();
        let mut i: usize = 0;
        while i < pcount
            invariant
                i <= pcount,
                s == self.data@,
                a == self.current_index_table_offset as int,
                query_index < query@.len(),
                query@.len() <= usize::MAX,
                *q_entry == query@[query_index as int],
                pcount == parents@.len(),
                pcount == count,
                parents@ == spec_read_parent_entries(s, a, offset, count)->Ok_0,
                spec_read_parent_entries(s, a, offset, count) is Ok,
                forall|k: int|
                    0 <= k < candidates@.len() ==> {
                        let c = #[trigger] candidates@[k];
                        &&& (c.1 == query_index + 1 || c.1 == query_index)
                        &&& exists|p: int|
                            0 <= p < count && (
                            #[trigger] spec_read_parent_entries(s, a, offset, count)->Ok_0[p])
                                == c.0 && spec_step_outcome(
                                s,
                                a,
                                query@[query_index as int],
                                c.0,
                                p,
                            ) == Some(c.1 == query_index + 1)
                    },
                forall|p: int|
                    0 <= p < i && (#[trigger] spec_step_outcome(
                        s,
                        a,
                        query@[query_index as int],
                        spec_read_parent_entries(s, a, offset, count)->Ok_0[p],
                        p,
                    )) is Some ==> exists|k: int|
                        0 <= k < candidates@.len() && (#[trigger] candidates@[k]).0
                            == spec_read_parent_entries(s, a, offset, count)->Ok_0[p]
                            && candidates@[k].1 == (if spec_step_outcome(
                            s,
                            a,
                            query@[query_index as int],
                            spec_read_parent_entries(s, a, offset, count)->Ok_0[p],
                            p,
                        )->0 {
                            query_index + 1
                        } else {
                            query_index as int
                        }),
            decreases pcount - i,
        {
            let ghost cands_top = candidates@;
            let entry: AddressEntry = parents[i];
            let verdict: Option<bool> = match q_entry {
                QueryEntry::Id(id) => {
                    match self.read_tag_data(entry.address) {
                        Ok(d) => if d.tag_id == *id {
                            Some(true)
                        } else {
                            None
                        },
                        Err(_) => None,
                    }
                },
                QueryEntry::Name(nm) => {
                    if *nm == entry.name {
                        Some(true)
                    } else {
                        None
                    }
                },
                QueryEntry::ArrayIndex(ix) => {
                    if *ix == i as u64 {
                        Some(true)
                    } else {
                        None
                    }
                },
                QueryEntry::Conditional(pred) => {
                    match self.read_tag_data(entry.address) {
                        Ok(d) => if pred.eval(&d) {
                            Some(true)
                        } else {
                            None
                        },
                        Err(_) => None,
                    }
                },
                QueryEntry::UpstreamConditional(pred) => {
                    match self.read_tag_data(entry.address) {
                        Ok(d) => Some(pred.eval(&d)),
                        Err(_) => None,
                    }
                },
            };
            proof {
                assert(verdict == spec_step_outcome(
                    s,
                    a,
                    query@[query_index as int],
                    entry,
                    i as int,
                ));
            }
            match verdict {
                Some(true) => {
                    candidates.push((entry, query_index + 1));
                },
                Some(false) => {
                    candidates.push((entry, query_index));
                },
                None => {},
            }
            proof {
                let pb0 = spec_read_parent_entries(s, a, offset, count)->Ok_0;
                assert forall|p: int|
                    0 <= p < i + 1 && (#[trigger] spec_step_outcome(
                        s,
                        a,
                        query@[query_index as int],
                        pb0[p],
                        p,
                    )) is Some implies exists|k: int|
                    0 <= k < candidates@.len() && (#[trigger] candidates@[k]).0 == pb0[p]
                        && candidates@[k].1 == (if spec_step_outcome(
                        s,
                        a,
                        query@[query_index as int],
                        pb0[p],
                        p,
                    )->0 {
                        query_index + 1
                    } else {
                        query_index as int
                    }) by {
                    if p == i {
                        assert(pb0[p] == entry);
                        let last = candidates@.len() - 1;
                        assert(candidates@[last].0 == entry);
                        assert(candidates@[last].1 == (if verdict->0 {
                            query_index + 1
                        } else {
                            query_index as int
                        }));
                    } else {
                        let k = choose|k: int|
                            0 <= k < cands_top.len() && (#[trigger] cands_top[k]).0 == pb0[p]
                                && cands_top[k].1 == (if spec_step_outcome(
                                s,
                                a,
                                query@[query_index as int],
                                pb0[p],
                                p,
                            )->0 {
                                query_index + 1
                            } else {
                                query_index as int
                            });
                        assert(candidates@[k] == cands_top[k]);
                    }
                }
            }
            i = i + 1;
        }
        // Descend into every accepted parent, aggregating completed chains
        // and chains found further up, without reporting any chain twice.
        // A parent already on the chain, or whose record cannot be decoded,
        // contributes nothing; by then no chain can run through it.
        let ccount: usize = candidates.len();
        let mut matches: Vec<AddressList> = Vec::new();
        let mut ci: usize = 0;
        proof {
            assert forall|chain: Seq<AddressEntry>| #[trigger] spec_extends_complete(
                s,
                a,
                query@,
                addr0,
                c0,
                hierarchy@,
                chain,
            ) implies exists|ck: int|
                0 <= ck < candidates@.len() && spec_cand_covers(
                    s,
                    a,
                    query@,
                    addr0,
                    c0,
                    hierarchy@,
                    #[trigger] candidates@[ck],
                    chain,
                ) by {
                lemma_initial_cover(
                    s,
                    a,
                    query@,
                    addr0,
                    c0,
                    hierarchy@,
                    js,
                    query_index as int,
                    offset,
                    count,
                    candidates@,
                    chain,
                );
            }
        }
        while ci < ccount
            invariant
                ci <= ccount,
                s == self.data@,
                a == self.current_index_table_offset as int,
                a >= 0,
                query_index < query@.len(),
                query@.len() <= usize::MAX,
                ccount == candidates@.len(),
                spec_valid_steps(s, a, query@, addr0, c0, hierarchy@, js),
                js[hierarchy@.len() as int] == query_index,
                hierarchy@.len() == 0 ==> offset == addr0 && tag_data.tag_parents_size / 16
                    == c0,
                hierarchy@.len() > 0 ==> offset == hierarchy@.last().address
                    && spec_read_tag_data(s, a, offset) == Ok::<
                    TagDataView<TagTypeView>,
                    DatabaseReadErrorKind,
                >(tag_data@),
                count == tag_data.tag_parents_size / 16,
                spec_read_parent_entries(s, a, offset, count) is Ok,
                forall|k: int|
                    0 <= k < candidates@.len() ==> {
                        let c = #[trigger] candidates@[k];
                        &&& (c.1 == query_index + 1 || c.1 == query_index)
                        &&& exists|p: int|
                            0 <= p < count && (
                            #[trigger] spec_read_parent_entries(s, a, offset, count)->Ok_0[p])
                                == c.0 && spec_step_outcome(
                                s,
                                a,
                                query@[query_index as int],
                                c.0,
                                p,
                            ) == Some(c.1 == query_index + 1)
                    },
                forall|k: int|
                    0 <= k < matches@.len() ==> {
                        let c = #[trigger] matches@[k];
                        &&& spec_complete_chain(s, a, query@, addr0, c0, c.array@)
                        &&& c.address_count == c.array@.len()
                        &&& hierarchy@.is_prefix_of(c.array@)
                        &&& c.array@.len() > hierarchy@.len()
                    },
                forall|k1: int, k2: int|
                    0 <= k1 < k2 < matches@.len() ==> (#[trigger] matches@[k1]).array@ != (
                    #[trigger] matches@[k2]).array@,
                forall|chain: Seq<AddressEntry>|
                    #[trigger] spec_extends_complete(s, a, query@, addr0, c0, hierarchy@, chain)
                        ==> (exists|k: int|
                        0 <= k < matches@.len() && (#[trigger] matches@[k]).array@ == chain) || (
                    exists|ck: int|
                        ci <= ck < candidates@.len() && spec_cand_covers(
                            s,
                            a,
                            query@,
                            addr0,
                            c0,
                            hierarchy@,
                            #[trigger] candidates@[ck],
                            chain,
                        )),
            decreases ccount - ci,
        {
            let ghost matches_top = matches@;
            let ghost cand = candidates@[ci as int];
            let (entry, next_index): (AddressEntry, usize) = candidates[ci];
            proof {
                assert(cand == (entry, next_index));
            }
            if !contains_address(&hierarchy, entry.address) {
                match self.read_tag_data(entry.address) {
                    Ok(td) => {
                        let mut h2 = clone_entries(&hierarchy);
                        h2.push(entry);
                        let ghost js2 = js.push(next_index as int);
                        proof {
                            assert(h2@ =~= hierarchy@.push(entry));
                            assert forall|ii: int| 0 <= ii < h2@.len() implies #[trigger]
                            spec_link_ok(s, a, query@, addr0, c0, h2@, js2, ii) by {
                                if ii < hierarchy@.len() {
                                    assert(spec_link_ok(
                                        s,
                                        a,
                                        query@,
                                        addr0,
                                        c0,
                                        hierarchy@,
                                        js,
                                        ii,
                                    ));
                                    assert(spec_node_address(addr0, h2@, ii)
                                        == spec_node_address(addr0, hierarchy@, ii));
                                    assert(spec_node_count(s, a, addr0, c0, h2@, ii)
                                        == spec_node_count(s, a, addr0, c0, hierarchy@, ii));
                                } else {
                                    assert(ii == hierarchy@.len());
                                    assert(spec_node_address(addr0, h2@, ii) == offset);
                                    assert(spec_node_count(s, a, addr0, c0, h2@, ii) == count);
                                }
                            }
                            assert(spec_valid_steps(s, a, query@, addr0, c0, h2@, js2));
                            lemma_valid_chain_len(s, a, query@, addr0, c0, h2@, js2);
                        }
                        let rr = self.upstream_search(
                            query,
                            next_index,
                            h2,
                            entry.address,
                            &td,
                            Ghost(addr0),
                            Ghost(c0),
                            Ghost(js2),
                        );
                        match rr {
                            Ok(SearchResult::Match(m)) => {
                                proof {
                                    assert(next_index == query@.len());
                                }
                                let ml: u64 = m.len() as u64;
                                let cl = AddressList { address_count: ml, array: m };
                                let ghost clv = cl.array@;
                                if !matches_contain(&matches, &cl) {
                                    matches.push(cl);
                                    proof {
                                        let last = matches@.len() - 1;
                                        assert(matches@[last].array@ == clv);
                                    }
                                }
                                proof {
                                    assert(clv == hierarchy@.push(entry));
                                    assert(exists|k: int|
                                        0 <= k < matches@.len() && (#[trigger] matches@[k]).array@
                                            == hierarchy@.push(entry));
                                    assert forall|chain: Seq<AddressEntry>|
                                        spec_extends_complete(
                                            s,
                                            a,
                                            query@,
                                            addr0,
                                            c0,
                                            hierarchy@,
                                            chain,
                                        ) && #[trigger] spec_cand_covers(
                                            s,
                                            a,
                                            query@,
                                            addr0,
                                            c0,
                                            hierarchy@,
                                            cand,
                                            chain,
                                        ) implies exists|k: int|
                                        0 <= k < matches@.len() && (#[trigger] matches@[k]).array@
                                            == chain by {
                                        lemma_cover_extends(
                                            s,
                                            a,
                                            query@,
                                            addr0,
                                            c0,
                                            hierarchy@,
                                            cand,
                                            chain,
                                        );
                                        assert(chain == hierarchy@.push(entry));
                                    }
                                }
                            },
                            Ok(SearchResult::Found(ls)) => {
                                proof {
                                    assert((next_index as int) < query@.len());
                                    assert(spec_chains_complete(
                                        s,
                                        a,
                                        query@,
                                        addr0,
                                        c0,
                                        hierarchy@.push(entry),
                                        ls@,
                                    ));
                                }
                                let lcount: usize = ls.len();
                                let mut li: usize = 0;
                                while li < lcount
                                    invariant
                                        li <= lcount,
                                        lcount == ls@.len(),
                                        s == self.data@,
                                        a == self.current_index_table_offset as int,
                                        spec_chains_sound(
                                            s,
                                            a,
                                            query@,
                                            addr0,
                                            c0,
                                            hierarchy@.push(entry),
                                            ls@,
                                        ),
                                        matches_top.len() <= matches@.len(),
                                        forall|k: int|
                                            0 <= k < matches_top.len() ==> #[trigger] matches@[k]
                                                == matches_top[k],
                                        forall|j: int|
                                            0 <= j < li ==> exists|k: int|
                                                0 <= k < matches@.len() && (
                                                #[trigger] matches@[k]).array@ == (
                                                #[trigger] ls@[j]).array@,
                                        forall|k: int|
                                            0 <= k < matches@.len() ==> {
                                                let c = #[trigger] matches@[k];
                                                &&& spec_complete_chain(
                                                    s,
                                                    a,
                                                    query@,
                                                    addr0,
                                                    c0,
                                                    c.array@,
                                                )
                                                &&& c.address_count == c.array@.len()
                                                &&& hierarchy@.is_prefix_of(c.array@)
                                                &&& c.array@.len() > hierarchy@.len()
                                            },
                                        forall|k1: int, k2: int|
                                            0 <= k1 < k2 < matches@.len() ==> (
                                            #[trigger] matches@[k1]).array@ != (
                                            #[trigger] matches@[k2]).array@,
                                    decreases lcount - li,
                                {
                                    let ghost m_top = matches@;
                                    let ghost lsk = ls@[li as int];
                                    let item: &AddressList = &ls[li];
                                    proof {
                                        assert(hierarchy@.push(entry).is_prefix_of(lsk.array@));
                                        assert(hierarchy@.is_prefix_of(lsk.array@));
                                        assert(lsk.array@.len() > hierarchy@.len());
                                    }
                                    if !matches_contain(&matches, item) {
                                        let copy = AddressList {
                                            address_count: item.address_count,
                                            array: clone_entries(&item.array),
                                        };
                                        proof {
                                            assert(copy.array@ == lsk.array@);
                                        }
                                        matches.push(copy);
                                        proof {
                                            let last = matches@.len() - 1;
                                            assert(matches@[last].array@ == lsk.array@);
                                        }
                                    }
                                    proof {
                                        assert(exists|k: int|
                                            0 <= k < matches@.len() && (
                                            #[trigger] matches@[k]).array@ == lsk.array@);
                                        assert forall|j: int| 0 <= j < li + 1 implies exists|k: int|
                                            0 <= k < matches@.len() && (
                                            #[trigger] matches@[k]).array@ == (
                                            #[trigger] ls@[j]).array@ by {
                                            if j < li {
                                                let k = choose|k: int|
                                                    0 <= k < m_top.len() && (
                                                    #[trigger] m_top[k]).array@ == ls@[j].array@;
                                                assert(matches@[k] == m_top[k]);
                                            }
                                        }
                                        assert forall|k: int|
                                            0 <= k < matches_top.len() implies #[trigger] matches@[k]
                                                == matches_top[k] by {
                                            assert(m_top[k] == matches_top[k]);
                                            assert(matches@[k] == m_top[k]);
                                        }
                                    }
                                    li = li + 1;
                                }
                                proof {
                                    assert forall|chain: Seq<AddressEntry>|
                                        spec_extends_complete(
                                            s,
                                            a,
                                            query@,
                                            addr0,
                                            c0,
                                            hierarchy@,
                                            chain,
                                        ) && #[trigger] spec_cand_covers(
                                            s,
                                            a,
                                            query@,
                                            addr0,
                                            c0,
                                            hierarchy@,
                                            cand,
                                            chain,
                                        ) implies exists|k: int|
                                        0 <= k < matches@.len() && (#[trigger] matches@[k]).array@
                                            == chain by {
                                        lemma_cover_extends(
                                            s,
                                            a,
                                            query@,
                                            addr0,
                                            c0,
                                            hierarchy@,
                                            cand,
                                            chain,
                                        );
                                        assert(spec_extends_complete(
                                            s,
                                            a,
                                            query@,
                                            addr0,
                                            c0,
                                            hierarchy@.push(entry),
                                            chain,
                                        ));
                                        let j = choose|j: int|
                                            0 <= j < ls@.len() && (#[trigger] ls@[j]).array@
                                                == chain;
                                    }
                                }
                            },
                            Ok(SearchResult::NoMatch) => {
                                proof {
                                    assert((next_index as int) < query@.len());
                                    assert forall|chain: Seq<AddressEntry>|
                                        spec_extends_complete(
                                            s,
                                            a,
                                            query@,
                                            addr0,
                                            c0,
                                            hierarchy@,
                                            chain,
                                        ) && #[trigger] spec_cand_covers(
                                            s,
                                            a,
                                            query@,
                                            addr0,
                                            c0,
                                            hierarchy@,
                                            cand,
                                            chain,
                                        ) implies exists|k: int|
                                        0 <= k < matches@.len() && (#[trigger] matches@[k]).array@
                                            == chain by {
                                        lemma_cover_extends(
                                            s,
                                            a,
                                            query@,
                                            addr0,
                                            c0,
                                            hierarchy@,
                                            cand,
                                            chain,
                                        );
                                        assert(spec_extends_complete(
                                            s,
                                            a,
                                            query@,
                                            addr0,
                                            c0,
                                            hierarchy@.push(entry),
                                            chain,
                                        ));
                                        assert(spec_chains_complete(
                                            s,
                                            a,
                                            query@,
                                            addr0,
                                            c0,
                                            hierarchy@.push(entry),
                                            Seq::<AddressList>::empty(),
                                        ));
                                        assert(false);
                                    }
                                }
                            },
                            Err(_) => {
                                proof {
                                    assert((next_index as int) < query@.len());
                                    assert(spec_read_parent_entries(
                                        s,
                                        a,
                                        entry.address,
                                        td.tag_parents_size / 16,
                                    ) is Err);
                                    assert forall|chain: Seq<AddressEntry>|
                                        spec_extends_complete(
                                            s,
                                            a,
                                            query@,
                                            addr0,
                                            c0,
                                            hierarchy@,
                                            chain,
                                        ) && #[trigger] spec_cand_covers(
                                            s,
                                            a,
                                            query@,
                                            addr0,
                                            c0,
                                            hierarchy@,
                                            cand,
                                            chain,
                                        ) implies exists|k: int|
                                        0 <= k < matches@.len() && (#[trigger] matches@[k]).array@
                                            == chain by {
                                        lemma_no_cover_child_unreadable(
                                            s,
                                            a,
                                            query@,
                                            addr0,
                                            c0,
                                            hierarchy@,
                                            cand,
                                            chain,
                                            td@,
                                        );
                                    }
                                }
                            },
                        }
                    },
                    Err(_) => {
                        proof {
                            assert forall|chain: Seq<AddressEntry>|
                                spec_extends_complete(
                                    s,
                                    a,
                                    query@,
                                    addr0,
                                    c0,
                                    hierarchy@,
                                    chain,
                                ) && #[trigger] spec_cand_covers(
                                    s,
                                    a,
                                    query@,
                                    addr0,
                                    c0,
                                    hierarchy@,
                                    cand,
                                    chain,
                                ) implies exists|k: int|
                                0 <= k < matches@.len() && (#[trigger] matches@[k]).array@
                                    == chain by {
                                lemma_cover_extends(
                                    s,
                                    a,
                                    query@,
                                    addr0,
                                    c0,
                                    hierarchy@,
                                    cand,
                                    chain,
                                );
                            }
                        }
                    },
                }
            } else {
                proof {
                    assert forall|chain: Seq<AddressEntry>|
                        spec_extends_complete(s, a, query@, addr0, c0, hierarchy@, chain)
                            && #[trigger] spec_cand_covers(
                            s,
                            a,
                            query@,
                            addr0,
                            c0,
                            hierarchy@,
                            cand,
                            chain,
                        ) implies exists|k: int|
                        0 <= k < matches@.len() && (#[trigger] matches@[k]).array@ == chain by {
                        let j = choose|j: int|
                            0 <= j < hierarchy@.len() && (#[trigger] hierarchy@[j]).address
                                == entry.address;
                        lemma_cover_extends(s, a, query@, addr0, c0, hierarchy@, cand, chain);
                        assert(hierarchy@[j].address != cand.0.address);
                        assert(false);
                    }
                }
            }
            proof {
                assert forall|chain: Seq<AddressEntry>| #[trigger] spec_extends_complete(
                    s,
                    a,
                    query@,
                    addr0,
                    c0,
                    hierarchy@,
                    chain,
                ) implies (exists|k: int|
                    0 <= k < matches@.len() && (#[trigger] matches@[k]).array@ == chain) || (
                exists|ck: int|
                    ci + 1 <= ck < candidates@.len() && spec_cand_covers(
                        s,
                        a,
                        query@,
                        addr0,
                        c0,
                        hierarchy@,
                        #[trigger] candidates@[ck],
                        chain,
                    )) by {
                    if exists|k: int|
                        0 <= k < matches_top.len() && (#[trigger] matches_top[k]).array@ == chain {
                        let k = choose|k: int|
                            0 <= k < matches_top.len() && (#[trigger] matches_top[k]).array@
                                == chain;
                        assert(matches@[k].array@ == chain);
                    } else {
                        let ck = choose|ck: int|
                            ci <= ck < candidates@.len() && spec_cand_covers(
                                s,
                                a,
                                query@,
                                addr0,
                                c0,
                                hierarchy@,
                                #[trigger] candidates@[ck],
                                chain,
                            );
                        if ck == ci {
                            assert(spec_cand_covers(
                                s,
                                a,
                                query@,
                                addr0,
                                c0,
                                hierarchy@,
                                cand,
                                chain,
                            ));
                        }
                    }
                }
            }
            ci = ci + 1;
        }
        if matches.len() == 0 {
            proof {
                assert forall|chain: Seq<AddressEntry>| !(#[trigger] spec_extends_complete(
                    s,
                    a,
                    query@,
                    addr0,
                    c0,
                    hierarchy@,
                    chain,
                )) by {
                    if spec_extends_complete(s, a, query@, addr0, c0, hierarchy@, chain) {
                        assert(false);
                    }
                }
            }
            Ok(SearchResult::NoMatch)
        } else {
            Ok(SearchResult::Found(matches))
        }
    }
}

} // verus!
