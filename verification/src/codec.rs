//! A model entry, and the byte format under which the main table stores it:
//! the entry's data and its index entries, each length-prefixed with a
//! little-endian `u64`.
use vstd::prelude::*;

verus! {

/// The list of multimap tables an index entry goes to.
#[derive(Clone, Copy, Debug, PartialEq, Eq, Structural)]
pub enum TreeCategory {
    Secondary,
    Blob,
    Relational,
    Subscription,
}

/// One key-value pair that an entry keeps in one multimap table: the table
/// at position `table` of the list `category`.
#[derive(Clone, Debug, PartialEq, Eq)]
pub struct IndexEntry {
    pub category: TreeCategory,
    pub table: u64,
    pub key: Vec<u8>,
    pub value: Vec<u8>,
}

/// A model as the tables store it: its primary key, its encoded data, and the
/// pairs it keeps in the multimap tables.
#[derive(Clone, Debug, PartialEq, Eq)]
pub struct ModelEntry {
    pub primary_key: Vec<u8>,
    pub data: Vec<u8>,
    pub indexes: Vec<IndexEntry>,
}

/// An index entry as plain values.
pub struct IndexEntryView {
    pub category: TreeCategory,
    pub table: u64,
    pub key: Seq<u8>,
    pub value: Seq<u8>,
}

/// A model entry as plain values.
pub struct ModelEntryView {
    pub primary_key: Seq<u8>,
    pub data: Seq<u8>,
    pub indexes: Seq<IndexEntryView>,
}

impl View for IndexEntry {
    type V = IndexEntryView;

    open spec fn view(&self) -> IndexEntryView {
        IndexEntryView { category: self.category, table: self.table, key: self.key@, value: self.value@ }
    }
}

/// The views of a list of index entries.
pub open spec fn index_views(v: Seq<IndexEntry>) -> Seq<IndexEntryView> {
    v.map_values(|e: IndexEntry| e@)
}

impl View for ModelEntry {
    type V = ModelEntryView;

    open spec fn view(&self) -> ModelEntryView {
        ModelEntryView { primary_key: self.primary_key@, data: self.data@, indexes: index_views(self.indexes@) }
    }
}

/// The views of a list of entries.
pub open spec fn entry_views(v: Seq<ModelEntry>) -> Seq<ModelEntryView> {
    v.map_values(|e: ModelEntry| e@)
}

/// Every length of the index entries fits a `u64`.
pub open spec fn indexes_fit(es: Seq<IndexEntryView>) -> bool {
    &&& es.len() <= u64::MAX
    &&& forall|i: int| 0 <= i < es.len() ==> (#[trigger] es[i]).key.len() <= u64::MAX && es[i].value.len() <= u64::MAX
}

/// The little-endian bytes of `x`.
pub open spec fn u64_le(x: u64) -> Seq<u8> {
    seq![
        x as u8,
        (x >> 8u64) as u8,
        (x >> 16u64) as u8,
        (x >> 24u64) as u8,
        (x >> 32u64) as u8,
        (x >> 40u64) as u8,
        (x >> 48u64) as u8,
        (x >> 56u64) as u8,
    ]
}

/// The `u64` whose little-endian bytes are the eight bytes of `s` from `pos`.
pub open spec fn u64_at(s: Seq<u8>, pos: int) -> u64 {
    (s[pos] as u64) | ((s[pos + 1] as u64) << 8u64) | ((s[pos + 2] as u64) << 16u64) | ((s[pos + 3] as u64)
        << 24u64) | ((s[pos + 4] as u64) << 32u64) | ((s[pos + 5] as u64) << 40u64) | ((s[pos + 6] as u64)
        << 48u64) | ((s[pos + 7] as u64) << 56u64)
}

/// The tag byte of a category.
pub open spec fn category_tag(c: TreeCategory) -> u8 {
    match c {
        TreeCategory::Secondary => 0,
        TreeCategory::Blob => 1,
        TreeCategory::Relational => 2,
        TreeCategory::Subscription => 3,
    }
}

/// The category of a tag byte, if it is one.
pub open spec fn tag_category(b: u8) -> Option<TreeCategory> {
    if b == 0 {
        Some(TreeCategory::Secondary)
    } else if b == 1 {
        Some(TreeCategory::Blob)
    } else if b == 2 {
        Some(TreeCategory::Relational)
    } else if b == 3 {
        Some(TreeCategory::Subscription)
    } else {
        None
    }
}

/// A byte string, prefixed with its length.
pub open spec fn encode_bytes(b: Seq<u8>) -> Seq<u8> {
    u64_le(b.len() as u64) + b
}

/// An index entry: its tag byte, its table position, its key and its value.
pub open spec fn encode_index(e: IndexEntryView) -> Seq<u8> {
    seq![category_tag(e.category)] + u64_le(e.table) + encode_bytes(e.key) + encode_bytes(e.value)
}

/// Index entries, one after the other.
pub open spec fn encode_indexes(es: Seq<IndexEntryView>) -> Seq<u8>
    decreases es.len(),
{
    if es.len() == 0 {
        Seq::empty()
    } else {
        encode_index(es[0]) + encode_indexes(es.drop_first())
    }
}

/// The stored form of an entry's data and index entries: the data, the
/// number of index entries, then the index entries.
pub open spec fn encode_entry(data: Seq<u8>, indexes: Seq<IndexEntryView>) -> Seq<u8> {
    encode_bytes(data) + u64_le(indexes.len() as u64) + encode_indexes(indexes)
}

/// The `u64` at `pos`, and the position after it.
pub open spec fn parse_u64(s: Seq<u8>, pos: int) -> Option<(u64, int)> {
    if 0 <= pos && pos + 8 <= s.len() {
        Some((u64_at(s, pos), pos + 8))
    } else {
        None
    }
}

/// The length-prefixed byte string at `pos`, and the position after it.
pub open spec fn parse_bytes(s: Seq<u8>, pos: int) -> Option<(Seq<u8>, int)> {
    match parse_u64(s, pos) {
        Some((n, p)) => if n <= s.len() - p {
            Some((s.subrange(p, p + n), p + n))
        } else {
            None
        },
        None => None,
    }
}

/// The index entry at `pos`, and the position after it.
pub open spec fn parse_index(s: Seq<u8>, pos: int) -> Option<(IndexEntryView, int)> {
    if 0 <= pos < s.len() {
        match tag_category(s[pos]) {
            Some(c) => match parse_u64(s, pos + 1) {
                Some((t, p1)) => match parse_bytes(s, p1) {
                    Some((k, p2)) => match parse_bytes(s, p2) {
                        Some((v, p3)) => Some((IndexEntryView { category: c, table: t, key: k, value: v }, p3)),
                        None => None,
                    },
                    None => None,
                },
                None => None,
            },
            None => None,
        }
    } else {
        None
    }
}

/// `acc` in front of the entries that `o` parsed.
pub open spec fn prepend(acc: Seq<IndexEntryView>, o: Option<(Seq<IndexEntryView>, int)>) -> Option<(Seq<IndexEntryView>, int)> {
    match o {
        Some((es, p)) => Some((acc + es, p)),
        None => None,
    }
}

/// `n` index entries from `pos`, and the position after them.
pub open spec fn parse_indexes(s: Seq<u8>, pos: int, n: nat) -> Option<(Seq<IndexEntryView>, int)>
    decreases n,
{
    if n == 0 {
        Some((Seq::empty(), pos))
    } else {
        match parse_index(s, pos) {
            Some((e, p)) => prepend(seq![e], parse_indexes(s, p, (n - 1) as nat)),
            None => None,
        }
    }
}

/// The data and index entries that `s` stores, where `s` is exactly the
/// stored form of some.
pub open spec fn decode_entry(s: Seq<u8>) -> Option<(Seq<u8>, Seq<IndexEntryView>)> {
    match parse_bytes(s, 0) {
        Some((data, p)) => match parse_u64(s, p) {
            Some((n, q)) => match parse_indexes(s, q, n as nat) {
                Some((es, r)) => if r == s.len() {
                    Some((data, es))
                } else {
                    None
                },
                None => None,
            },
            None => None,
        },
        None => None,
    }
}

proof fn lemma_u64_roundtrip(x: u64)
    ensures
        u64_at(u64_le(x), 0) == x,
{
    let s = u64_le(x);
    let b0 = x as u8;
    let b1 = (x >> 8u64) as u8;
    let b2 = (x >> 16u64) as u8;
    let b3 = (x >> 24u64) as u8;
    let b4 = (x >> 32u64) as u8;
    let b5 = (x >> 40u64) as u8;
    let b6 = (x >> 48u64) as u8;
    let b7 = (x >> 56u64) as u8;
    assert(s[0] == b0 && s[1] == b1 && s[2] == b2 && s[3] == b3 && s[4] == b4 && s[5] == b5 && s[6] == b6
        && s[7] == b7);
    assert((b0 as u64) | ((b1 as u64) << 8u64) | ((b2 as u64) << 16u64) | ((b3 as u64) << 24u64) | ((b4 as u64)
        << 32u64) | ((b5 as u64) << 40u64) | ((b6 as u64) << 48u64) | ((b7 as u64) << 56u64) == x) by (bit_vector)
        requires
            b0 == x as u8,
            b1 == (x >> 8u64) as u8,
            b2 == (x >> 16u64) as u8,
            b3 == (x >> 24u64) as u8,
            b4 == (x >> 32u64) as u8,
            b5 == (x >> 40u64) as u8,
            b6 == (x >> 48u64) as u8,
            b7 == (x >> 56u64) as u8,
    ;
}

proof fn lemma_parse_u64(s: Seq<u8>, pos: int, x: u64)
    requires
        0 <= pos,
        pos + 8 <= s.len(),
        s.subrange(pos, pos + 8) == u64_le(x),
    ensures
        parse_u64(s, pos) == Some((x, pos + 8)),
{
    lemma_u64_roundtrip(x);
    let t = s.subrange(pos, pos + 8);
    assert(forall|i: int| 0 <= i < 8 ==> t[i] == s[pos + i]);
    assert(u64_at(s, pos) == u64_at(t, 0));
}

proof fn lemma_parse_bytes(s: Seq<u8>, pos: int, b: Seq<u8>)
    requires
        0 <= pos,
        b.len() <= u64::MAX,
        pos + encode_bytes(b).len() <= s.len(),
        s.subrange(pos, pos + encode_bytes(b).len()) == encode_bytes(b),
    ensures
        parse_bytes(s, pos) == Some((b, pos + encode_bytes(b).len())),
{
    let e = encode_bytes(b);
    assert(s.subrange(pos, pos + 8) =~= e.subrange(0, 8));
    assert(e.subrange(0, 8) =~= u64_le(b.len() as u64));
    lemma_parse_u64(s, pos, b.len() as u64);
    assert(s.subrange(pos + 8, pos + 8 + b.len()) =~= e.subrange(8, e.len() as int));
    assert(e.subrange(8, e.len() as int) =~= b);
}

proof fn lemma_parse_index(s: Seq<u8>, pos: int, e: IndexEntryView)
    requires
        0 <= pos,
        e.key.len() <= u64::MAX,
        e.value.len() <= u64::MAX,
        pos + encode_index(e).len() <= s.len(),
        s.subrange(pos, pos + encode_index(e).len()) == encode_index(e),
    ensures
        parse_index(s, pos) == Some((e, pos + encode_index(e).len())),
{
    let enc = encode_index(e);
    let kb = encode_bytes(e.key);
    let vb = encode_bytes(e.value);
    let kl = kb.len() as int;
    assert(enc =~= seq![category_tag(e.category)] + u64_le(e.table) + kb + vb);
    assert(s[pos] == enc[0]);
    assert(tag_category(s[pos]) == Some(e.category));
    assert(s.subrange(pos + 1, pos + 9) =~= enc.subrange(1, 9));
    assert(enc.subrange(1, 9) =~= u64_le(e.table));
    lemma_parse_u64(s, pos + 1, e.table);
    assert(s.subrange(pos + 9, pos + 9 + kl) =~= enc.subrange(9, 9 + kl));
    assert(enc.subrange(9, 9 + kl) =~= kb);
    lemma_parse_bytes(s, pos + 9, e.key);
    let p2 = pos + 9 + kl;
    assert(s.subrange(p2, p2 + vb.len()) =~= enc.subrange(9 + kl, enc.len() as int));
    assert(enc.subrange(9 + kl, enc.len() as int) =~= vb);
    lemma_parse_bytes(s, p2, e.value);
}

proof fn lemma_parse_indexes(s: Seq<u8>, pos: int, es: Seq<IndexEntryView>)
    requires
        0 <= pos,
        indexes_fit(es),
        pos + encode_indexes(es).len() <= s.len(),
        s.subrange(pos, pos + encode_indexes(es).len()) == encode_indexes(es),
    ensures
        parse_indexes(s, pos, es.len()) == Some((es, pos + encode_indexes(es).len())),
    decreases es.len(),
{
    if es.len() > 0 {
        let first = encode_index(es[0]);
        let rest = encode_indexes(es.drop_first());
        let fl = first.len() as int;
        let rl = rest.len() as int;
        let whole = s.subrange(pos, pos + fl + rl);
        assert(encode_indexes(es) == first + rest);
        assert(whole == first + rest);
        assert(s.subrange(pos, pos + fl) =~= whole.subrange(0, fl));
        assert(whole.subrange(0, fl) =~= first);
        assert(es[0].key.len() <= u64::MAX && es[0].value.len() <= u64::MAX);
        lemma_parse_index(s, pos, es[0]);
        let p = pos + fl;
        assert(s.subrange(p, p + rl) =~= whole.subrange(fl, fl + rl));
        assert(whole.subrange(fl, fl + rl) =~= rest);
        assert(indexes_fit(es.drop_first())) by {
            assert forall|i: int| 0 <= i < es.drop_first().len() implies (#[trigger] es.drop_first()[i]).key.len()
                <= u64::MAX && es.drop_first()[i].value.len() <= u64::MAX by {
                assert(es.drop_first()[i] == es[i + 1]);
            }
        }
        lemma_parse_indexes(s, p, es.drop_first());
        assert(seq![es[0]] + es.drop_first() =~= es);
    } else {
        assert(Seq::<IndexEntryView>::empty() =~= es);
    }
}

/// Decoding the stored form of an entry gives back its data and index
/// entries.
pub proof fn lemma_decode_encode(data: Seq<u8>, indexes: Seq<IndexEntryView>)
    requires
        data.len() <= u64::MAX,
        indexes_fit(indexes),
    ensures
        decode_entry(encode_entry(data, indexes)) == Some((data, indexes)),
{
    let s = encode_entry(data, indexes);
    let db = encode_bytes(data);
    let nb = u64_le(indexes.len() as u64);
    let ib = encode_indexes(indexes);
    let dl = db.len() as int;
    assert(s.subrange(0, db.len() as int) =~= db);
    lemma_parse_bytes(s, 0, data);
    assert(s.subrange(dl, dl + 8) =~= nb);
    lemma_parse_u64(s, db.len() as int, indexes.len() as u64);
    let q = dl + 8;
    assert(s.subrange(q, q + ib.len() as int) =~= ib);
    lemma_parse_indexes(s, q, indexes);
}

/// Appends the little-endian bytes of `x`.
fn push_u64(out: &mut Vec<u8>, x: u64)
    ensures
        final(out)@ == old(out)@ + u64_le(x),
{
    out.push(x as u8);
    out.push((x >> 8u64) as u8);
    out.push((x >> 16u64) as u8);
    out.push((x >> 24u64) as u8);
    out.push((x >> 32u64) as u8);
    out.push((x >> 40u64) as u8);
    out.push((x >> 48u64) as u8);
    out.push((x >> 56u64) as u8);
    assert(final(out)@ =~= old(out)@ + u64_le(x));
}

/// Appends `b`, prefixed with its length.
fn push_bytes(out: &mut Vec<u8>, b: &Vec<u8>)
    ensures
        final(out)@ == old(out)@ + encode_bytes(b@),
{
    push_u64(out, b.len() as u64);
    let ghost mid = out@;
    let mut i: usize = 0;
    while i < b.len()
        invariant
            0 <= i <= b.len(),
            out@ == mid + b@.subrange(0, i as int),
        decreases b.len() - i,
    {
        out.push(b[i]);
        assert(b@.subrange(0, i + 1) =~= b@.subrange(0, i as int).push(b@[i as int]));
        i = i + 1;
    }
    assert(b@.subrange(0, i as int) =~= b@);
    assert(out@ =~= old(out)@ + encode_bytes(b@));
}

proof fn lemma_encode_indexes_push(es: Seq<IndexEntryView>, e: IndexEntryView)
    ensures
        encode_indexes(es.push(e)) == encode_indexes(es) + encode_index(e),
    decreases es.len(),
{
    if es.len() == 0 {
        assert(es.push(e).drop_first() =~= Seq::<IndexEntryView>::empty());
        assert(es.push(e)[0] == e);
        assert(encode_indexes(Seq::<IndexEntryView>::empty()) == Seq::<u8>::empty());
        assert(encode_indexes(es) == Seq::<u8>::empty());
        assert(encode_indexes(es.push(e)) =~= encode_index(e) + Seq::<u8>::empty());
        assert(encode_indexes(es.push(e)) =~= encode_indexes(es) + encode_index(e));
    } else {
        assert(es.push(e).drop_first() =~= es.drop_first().push(e));
        lemma_encode_indexes_push(es.drop_first(), e);
        assert(encode_indexes(es.push(e)) =~= encode_indexes(es) + encode_index(e));
    }
}

/// The stored form of an entry's data and index entries.
pub fn encode_model(entry: &ModelEntry) -> (r: Vec<u8>)
    ensures
        r@ == encode_entry(entry@.data, entry@.indexes),
{
    let mut out: Vec<u8> = Vec::new();
    push_bytes(&mut out, &entry.data);
    push_u64(&mut out, entry.indexes.len() as u64);
    let ghost head = out@;
    let mut i: usize = 0;
    while i < entry.indexes.len()
        invariant
            0 <= i <= entry.indexes.len(),
            out@ == head + encode_indexes(index_views(entry.indexes@).subrange(0, i as int)),
        decreases entry.indexes.len() - i,
    {
        let e = &entry.indexes[i];
        let ghost before = out@;
        let tag: u8 = match e.category {
            TreeCategory::Secondary => 0,
            TreeCategory::Blob => 1,
            TreeCategory::Relational => 2,
            TreeCategory::Subscription => 3,
        };
        out.push(tag);
        push_u64(&mut out, e.table);
        push_bytes(&mut out, &e.key);
        push_bytes(&mut out, &e.value);
        proof {
            let vs = index_views(entry.indexes@);
            assert(out@ =~= before + encode_index(vs[i as int]));
            assert(vs.subrange(0, i + 1) =~= vs.subrange(0, i as int).push(vs[i as int]));
            lemma_encode_indexes_push(vs.subrange(0, i as int), vs[i as int]);
        }
        i = i + 1;
    }
    proof {
        assert(index_views(entry.indexes@).subrange(0, i as int) =~= index_views(entry.indexes@));
        assert(entry@.indexes.len() == entry.indexes@.len());
    }
    out
}

/// The `u64` at `pos` and the position after it, where eight bytes are
/// there.
fn read_u64(s: &Vec<u8>, pos: usize) -> (r: Option<(u64, usize)>)
    ensures
        r matches Some((x, p)) ==> parse_u64(s@, pos as int) == Some((x, p as int)),
        r is None ==> parse_u64(s@, pos as int) is None,
{
    if pos <= s.len() && s.len() - pos >= 8 {
        let x: u64 = (s[pos] as u64) | ((s[pos + 1] as u64) << 8u64) | ((s[pos + 2] as u64) << 16u64) | ((s[pos
            + 3] as u64) << 24u64) | ((s[pos + 4] as u64) << 32u64) | ((s[pos + 5] as u64) << 40u64) | ((s[pos
            + 6] as u64) << 48u64) | ((s[pos + 7] as u64) << 56u64);
        Some((x, pos + 8))
    } else {
        None
    }
}

/// The length-prefixed byte string at `pos` and the position after it.
fn read_bytes(s: &Vec<u8>, pos: usize) -> (r: Option<(Vec<u8>, usize)>)
    ensures
        r matches Some((b, p)) ==> parse_bytes(s@, pos as int) == Some((b@, p as int)),
        r is None ==> parse_bytes(s@, pos as int) is None,
{
    let (n, p) = match read_u64(s, pos) {
        Some(x) => x,
        None => {
            return None;
        },
    };
    if n > (s.len() - p) as u64 {
        return None;
    }
    let end = p + n as usize;
    let mut out: Vec<u8> = Vec::new();
    let mut i: usize = p;
    while i < end
        invariant
            p <= i <= end <= s.len(),
            out@ == s@.subrange(p as int, i as int),
        decreases end - i,
    {
        out.push(s[i]);
        assert(s@.subrange(p as int, i + 1) =~= s@.subrange(p as int, i as int).push(s@[i as int]));
        i = i + 1;
    }
    Some((out, end))
}

/// The category of a tag byte, if it is one.
fn read_category(b: u8) -> (r: Option<TreeCategory>)
    ensures
        r == tag_category(b),
{
    if b == 0 {
        Some(TreeCategory::Secondary)
    } else if b == 1 {
        Some(TreeCategory::Blob)
    } else if b == 2 {
        Some(TreeCategory::Relational)
    } else if b == 3 {
        Some(TreeCategory::Subscription)
    } else {
        None
    }
}

/// The index entry at `pos` and the position after it.
fn read_index(s: &Vec<u8>, pos: usize) -> (r: Option<(IndexEntry, usize)>)
    ensures
        r matches Some((e, p)) ==> parse_index(s@, pos as int) == Some((e@, p as int)),
        r is None ==> parse_index(s@, pos as int) is None,
{
    if pos >= s.len() {
        return None;
    }
    let category = match read_category(s[pos]) {
        Some(c) => c,
        None => {
            return None;
        },
    };
    let (table, p1) = match read_u64(s, pos + 1) {
        Some(x) => x,
        None => {
            return None;
        },
    };
    let (key, p2) = match read_bytes(s, p1) {
        Some(x) => x,
        None => {
            return None;
        },
    };
    let (value, p3) = match read_bytes(s, p2) {
        Some(x) => x,
        None => {
            return None;
        },
    };
    Some((IndexEntry { category, table, key, value }, p3))
}

/// The data and index entries that `s` stores, where it is the stored form
/// of some; `primary_key` completes the entry.
pub fn decode_model(primary_key: &Vec<u8>, s: &Vec<u8>) -> (r: Option<ModelEntry>)
    ensures
        r matches Some(e) ==> e@.primary_key == primary_key@ && decode_entry(s@) == Some((e@.data, e@.indexes)),
        r is None ==> decode_entry(s@) is None,
{
    let (data, p) = match read_bytes(s, 0) {
        Some(x) => x,
        None => {
            return None;
        },
    };
    let (n, q) = match read_u64(s, p) {
        Some(x) => x,
        None => {
            return None;
        },
    };
    let mut indexes: Vec<IndexEntry> = Vec::new();
    let mut pos: usize = q;
    let mut k: u64 = 0;
    while k < n
        invariant
            0 <= k <= n,
            parse_bytes(s@, 0) == Some((data@, p as int)),
            parse_u64(s@, p as int) == Some((n, q as int)),
            parse_indexes(s@, q as int, n as nat) == prepend(index_views(indexes@), parse_indexes(s@, pos as int, (n - k) as nat)),
        decreases n - k,
    {
        let ghost acc = index_views(indexes@);
        let (e, p2) = match read_index(s, pos) {
            Some(x) => x,
            None => {
                assert(parse_indexes(s@, pos as int, (n - k) as nat) is None);
                return None;
            },
        };
        proof {
            let rest = parse_indexes(s@, p2 as int, (n - k - 1) as nat);
            assert(parse_indexes(s@, pos as int, (n - k) as nat) == prepend(seq![e@], rest));
            match rest {
                Some((es, r)) => {
                    assert(acc + (seq![e@] + es) =~= acc.push(e@) + es);
                },
                None => {},
            }
        }
        indexes.push(e);
        proof {
            assert(index_views(indexes@) =~= acc.push(e@));
        }
        pos = p2;
        k = k + 1;
    }
    proof {
        assert(parse_indexes(s@, pos as int, 0) == Some((Seq::<IndexEntryView>::empty(), pos as int)));
        assert(index_views(indexes@) + Seq::<IndexEntryView>::empty() =~= index_views(indexes@));
    }
    if pos != s.len() {
        return None;
    }
    let mut key: Vec<u8> = Vec::new();
    let mut i: usize = 0;
    while i < primary_key.len()
        invariant
            0 <= i <= primary_key.len(),
            key@ == primary_key@.subrange(0, i as int),
        decreases primary_key.len() - i,
    {
        key.push(primary_key[i]);
        assert(primary_key@.subrange(0, i + 1) =~= primary_key@.subrange(0, i as int).push(primary_key@[i as int]));
        i = i + 1;
    }
    assert(primary_key@.subrange(0, i as int) =~= primary_key@);
    Some(ModelEntry { primary_key: key, data, indexes })
}

} // verus!
