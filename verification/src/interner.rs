use vstd::prelude::*;

use crate::strutil::push_char;

verus! {

/// How many generations an interned entry stays alive after the generation
/// it was created in. Entries older than this window are freed by `reset`,
/// and ids older than this window answer `UseAfterFree`.
pub const COLLECT_WINDOW: usize = 30;

/// Answer of a lookup in the interner: the location is found, the id points
/// at no entry, or the id's generation was already collected.
#[derive(Debug, Clone, Copy, PartialEq, Eq, Structural)]
pub enum InternQuery<T> {
    Found(T),
    NotFound,
    UseAfterFree,
}

/// A compact, round-trippable handle for an interned location: the interner
/// generation that minted it, and the slot index inside the interner.
#[derive(Debug, Clone, Copy, PartialEq, Eq, Structural)]
pub struct InternId {
    pub lifetime: u32,
    pub id: u32,
}

pub open spec fn spec_hex_digit(d: u64) -> char {
    if d == 0 {
        '0'
    } else if d == 1 {
        '1'
    } else if d == 2 {
        '2'
    } else if d == 3 {
        '3'
    } else if d == 4 {
        '4'
    } else if d == 5 {
        '5'
    } else if d == 6 {
        '6'
    } else if d == 7 {
        '7'
    } else if d == 8 {
        '8'
    } else if d == 9 {
        '9'
    } else if d == 10 {
        'a'
    } else if d == 11 {
        'b'
    } else if d == 12 {
        'c'
    } else if d == 13 {
        'd'
    } else if d == 14 {
        'e'
    } else {
        'f'
    }
}

pub open spec fn spec_is_hex_digit(c: char) -> bool {
    ('0' <= c && c <= '9') || ('a' <= c && c <= 'f') || ('A' <= c && c <= 'F')
}

pub open spec fn spec_hex_digit_val(c: char) -> u64 {
    if '0' <= c && c <= '9' {
        (c as u64 - '0' as u64) as u64
    } else if 'a' <= c && c <= 'f' {
        (c as u64 - 'a' as u64 + 10) as u64
    } else if 'A' <= c && c <= 'F' {
        (c as u64 - 'A' as u64 + 10) as u64
    } else {
        0
    }
}

/// The hexadecimal rendering of `n`, lowercase, without leading zeroes.
pub open spec fn spec_hex_seq(n: u64) -> Seq<char>
    decreases n,
{
    if n < 16 {
        seq![spec_hex_digit(n)]
    } else {
        spec_hex_seq(n / 16).push(spec_hex_digit(n % 16))
    }
}

/// The value of a sequence of hexadecimal digits, most significant first.
pub open spec fn spec_hex_val(s: Seq<char>) -> nat
    decreases s.len(),
{
    if s.len() == 0 {
        0
    } else {
        spec_hex_val(s.drop_last()) * 16 + spec_hex_digit_val(s.last()) as nat
    }
}

fn hex_digit(d: u64) -> (c: char)
    requires
        d < 16,
    ensures
        c == spec_hex_digit(d),
{
    if d == 0 {
        '0'
    } else if d == 1 {
        '1'
    } else if d == 2 {
        '2'
    } else if d == 3 {
        '3'
    } else if d == 4 {
        '4'
    } else if d == 5 {
        '5'
    } else if d == 6 {
        '6'
    } else if d == 7 {
        '7'
    } else if d == 8 {
        '8'
    } else if d == 9 {
        '9'
    } else if d == 10 {
        'a'
    } else if d == 11 {
        'b'
    } else if d == 12 {
        'c'
    } else if d == 13 {
        'd'
    } else if d == 14 {
        'e'
    } else {
        'f'
    }
}

fn hex_rec(n: u64, out: &mut String)
    ensures
        final(out)@ == old(out)@ + spec_hex_seq(n),
    decreases n,
{
    if n < 16 {
        push_char(out, hex_digit(n));
    } else {
        assert(n / 16 < n) by (nonlinear_arith)
            requires
                n >= 16,
        ;
        hex_rec(n / 16, out);
        push_char(out, hex_digit(n % 16));
    }
}

/// Every character of a hex rendering is a lowercase hex digit, the rendering
/// is between 1 and 16 characters long, and reading it back yields `n`.
pub proof fn lemma_hex_seq_val(n: u64)
    ensures
        spec_hex_val(spec_hex_seq(n)) == n,
        1 <= spec_hex_seq(n).len() <= 16,
        forall|i: int|
            0 <= i < spec_hex_seq(n).len() ==> spec_is_hex_digit(#[trigger] spec_hex_seq(n)[i]),
    decreases n,
{
    lemma_hex_len_bound(n);
    if n < 16 {
        let s = spec_hex_seq(n);
        assert(s =~= seq![spec_hex_digit(n)]);
        assert(s.drop_last() =~= Seq::<char>::empty());
        assert(spec_hex_val(Seq::<char>::empty()) == 0);
        assert(s.last() == spec_hex_digit(n));
        assert(spec_hex_digit_val(spec_hex_digit(n)) == n);
        assert(spec_is_hex_digit(spec_hex_digit(n)));
    } else {
        assert(n / 16 < n) by (nonlinear_arith)
            requires
                n >= 16,
        ;
        lemma_hex_seq_val(n / 16);
        let s = spec_hex_seq(n);
        let t = spec_hex_seq(n / 16);
        assert(s == t.push(spec_hex_digit(n % 16)));
        assert(s.drop_last() =~= t);
        assert(s.last() == spec_hex_digit(n % 16));
        assert(spec_hex_digit_val(s.last()) == n % 16);
        assert(spec_hex_val(s) == (n / 16) * 16 + n % 16);
        assert((n / 16) * 16 + n % 16 == n) by (nonlinear_arith);
        assert(spec_is_hex_digit(spec_hex_digit(n % 16)));
        assert forall|i: int| 0 <= i < s.len() implies spec_is_hex_digit(#[trigger] s[i]) by {
            if i < t.len() {
                assert(s[i] == t[i]);
            } else {
                assert(s[i] == spec_hex_digit(n % 16));
            }
        }
    }
}

/// 16 to the power `k`.
pub open spec fn pow16(k: nat) -> nat
    decreases k,
{
    if k == 0 {
        1
    } else {
        16 * pow16((k - 1) as nat)
    }
}

/// pow16 written out step by step up to the 16 digits that cover u64.
proof fn lemma_pow16_u64_exact()
    ensures
        pow16(16) == 0x1_0000_0000_0000_0000,
        pow16(1) == 16,
{
    assert(pow16(0) == 1);
    assert(pow16(1) == 16);
    assert(pow16(2) == 0x100);
    assert(pow16(3) == 0x1000);
    assert(pow16(4) == 0x1_0000);
    assert(pow16(5) == 0x10_0000);
    assert(pow16(6) == 0x100_0000);
    assert(pow16(7) == 0x1000_0000);
    assert(pow16(8) == 0x1_0000_0000);
    assert(pow16(9) == 0x10_0000_0000);
    assert(pow16(10) == 0x100_0000_0000);
    assert(pow16(11) == 0x1000_0000_0000);
    assert(pow16(12) == 0x1_0000_0000_0000);
    assert(pow16(13) == 0x10_0000_0000_0000);
    assert(pow16(14) == 0x100_0000_0000_0000);
    assert(pow16(15) == 0x1000_0000_0000_0000);
    assert(pow16(16) == 0x1_0000_0000_0000_0000);
}

proof fn lemma_hex_len_bound(n: u64)
    ensures
        spec_hex_seq(n).len() <= 16,
{
    lemma_pow16_u64_exact();
    lemma_hex_len_by_value(n, 16);
}

/// If `n` is below 16^k then its hex rendering has at most `k` digits.
proof fn lemma_hex_len_by_value(n: u64, k: nat)
    requires
        k >= 1,
        (n as nat) < pow16(k),
    ensures
        spec_hex_seq(n).len() <= k,
    decreases n,
{
    if n < 16 {
    } else {
        assert(n / 16 < n) by (nonlinear_arith)
            requires
                n >= 16,
        ;
        assert(k >= 2) by {
            if k == 1 {
                assert(pow16(0) == 1);
                assert(pow16(1) == 16);
            }
        }
        let p = pow16((k - 1) as nat);
        assert(((n / 16) as nat) < p) by (nonlinear_arith)
            requires
                (n as nat) < pow16(k),
                pow16(k) == 16 * p,
        ;
        lemma_hex_len_by_value(n / 16, (k - 1) as nat);
    }
}

impl InternId {
    pub fn new(lifetime: usize, id: usize) -> (r: InternId)
        requires
            lifetime <= u32::MAX as usize,
            id <= u32::MAX as usize,
        ensures
            r.lifetime == lifetime as u32,
            r.id == id as u32,
    {
        InternId { lifetime: lifetime as u32, id: id as u32 }
    }

    /// The generation this id was minted in.
    pub open spec fn spec_lifetime(self) -> nat {
        self.lifetime as nat
    }

    /// The slot index this id points at.
    pub open spec fn spec_index(self) -> nat {
        self.id as nat
    }

    /// The packed 64-bit form: generation in the high half, index in the low.
    pub open spec fn spec_u64(self) -> u64 {
        (self.lifetime as u64 * 0x1_0000_0000 + self.id as u64) as u64
    }

    pub fn to_u64(&self) -> (r: u64)
        ensures
            r == self.spec_u64(),
    {
        let l = self.lifetime;
        let i = self.id;
        let r = ((l as u64) << 32) | (i as u64);
        assert((((l as u64) << 32u64) | (i as u64)) == (l as u64) * 0x1_0000_0000 + (
        i as u64)) by (bit_vector);
        r
    }

    pub fn from_u64(id: u64) -> (r: InternId)
        ensures
            r.lifetime as u64 == id / 0x1_0000_0000,
            r.id as u64 == id % 0x1_0000_0000,
            r.spec_u64() == id,
    {
        let hi = id >> 32;
        let lo = id & 0xffff_ffff;
        assert((id >> 32u64) == id / 0x1_0000_0000 && (id & 0xffff_ffff) == id % 0x1_0000_0000 && (
        id >> 32u64) <= 0xffff_ffffu64 && (id & 0xffff_ffff) <= 0xffff_ffffu64) by (bit_vector);
        let r = InternId { lifetime: hi as u32, id: lo as u32 };
        assert(r.spec_u64() == id) by (nonlinear_arith)
            requires
                r.lifetime as u64 == id / 0x1_0000_0000,
                r.id as u64 == id % 0x1_0000_0000,
        ;
        r
    }

    /// The id as a lowercase hexadecimal string without leading zeroes.
    pub fn to_hex(&self) -> (r: String)
        ensures
            r@ == spec_hex_seq(self.spec_u64()),
    {
        let mut out = String::new();
        hex_rec(self.to_u64(), &mut out);
        assert(out@ =~= spec_hex_seq(self.spec_u64()));
        out
    }

    /// Reads an id back from a hexadecimal string (either case accepted).
    pub fn from_hex(hex: &str) -> (r: InternId)
        requires
            1 <= hex@.len() <= 16,
            forall|i: int| 0 <= i < hex@.len() ==> spec_is_hex_digit(#[trigger] hex@[i]),
        ensures
            r.spec_u64() as nat == spec_hex_val(hex@),
            r.lifetime as nat == spec_hex_val(hex@) / 0x1_0000_0000,
            r.id as nat == spec_hex_val(hex@) % 0x1_0000_0000,
    {
        let n = hex.unicode_len();
        let mut v: u64 = 0;
        let mut i: usize = 0;
        proof {
            assert(hex@.subrange(0, 0) =~= Seq::<char>::empty());
        }
        while i < n
            invariant
                0 <= i <= n,
                n == hex@.len(),
                1 <= n <= 16,
                forall|j: int| 0 <= j < n ==> spec_is_hex_digit(#[trigger] hex@[j]),
                v as nat == spec_hex_val(hex@.subrange(0, i as int)),
                (v as nat) < pow16(i as nat),
            decreases n - i,
        {
            let c = hex.get_char(i);
            let d = hex_digit_value(c);
            proof {
                lemma_pow16_le_u64(i as nat + 1);
                let p = pow16(i as nat);
                let pnext = pow16(i as nat + 1);
                assert((v as nat) * 16 + (d as nat) < pnext) by (nonlinear_arith)
                    requires
                        (v as nat) < p,
                        d < 16,
                        pnext == 16 * p,
                ;
            }
            let new_v = v * 16 + d;
            proof {
                let pre = hex@.subrange(0, i as int);
                let cur = hex@.subrange(0, i as int + 1);
                assert(cur.drop_last() =~= pre);
                assert(cur.last() == hex@[i as int]);
            }
            v = new_v;
            i = i + 1;
        }
        proof {
            assert(hex@.subrange(0, n as int) =~= hex@);
        }
        InternId::from_u64(v)
    }
}

/// Up to 16 hex digits, the value stays within the u64 range plus one.
proof fn lemma_pow16_le_u64(k: nat)
    requires
        k <= 16,
    ensures
        pow16(k) <= 0x1_0000_0000_0000_0000,
        pow16(k) == 16 * pow16((k - 1) as nat) || k == 0,
    decreases k,
{
    if k == 0 {
    } else {
        lemma_pow16_le_u64((k - 1) as nat);
        lemma_pow16_monotone(k, 16);
        lemma_pow16_u64_exact();
    }
}

proof fn lemma_pow16_monotone(a: nat, b: nat)
    requires
        a <= b,
    ensures
        pow16(a) <= pow16(b),
    decreases b,
{
    if a < b {
        lemma_pow16_monotone(a, (b - 1) as nat);
        assert(pow16((b - 1) as nat) >= 1) by {
            lemma_pow16_pos((b - 1) as nat);
        }
    }
}

proof fn lemma_pow16_pos(k: nat)
    ensures
        pow16(k) >= 1,
    decreases k,
{
    if k > 0 {
        lemma_pow16_pos((k - 1) as nat);
    }
}

/// One slot of the interner: a location tagged with the generation it was
/// interned in, or a freed slot. Slots are never reused, so an index stays
/// meaningful for the whole life of the interner.
#[derive(Clone, Copy)]
enum SpanSlot {
    Live { lifetime: usize, span: u64 },
    Freed,
}

/// The interner seen as mathematics: the current generation and, per slot,
/// the generation/location pair it holds (or nothing, once freed).
pub struct InternerView {
    pub lifetime: nat,
    pub slots: Seq<Option<(nat, u64)>>,
}

spec fn slot_model(s: SpanSlot) -> Option<(nat, u64)> {
    match s {
        SpanSlot::Live { lifetime, span } => Some((lifetime as nat, span)),
        SpanSlot::Freed => None,
    }
}

/// Generational intern table for compiler-internal locations, modeled as
/// plain 64-bit values. `intern` hands out ids; `reset` opens a new
/// generation and frees entries older than `COLLECT_WINDOW` generations;
/// `span` answers `UseAfterFree` for ids whose generation was collected,
/// instead of ever answering with a wrong location.
pub struct SpanInternerImpl {
    lifetime: usize,
    slots: Vec<SpanSlot>,
}

impl View for SpanInternerImpl {
    type V = InternerView;

    closed spec fn view(&self) -> InternerView {
        InternerView {
            lifetime: self.lifetime as nat,
            slots: self.slots@.map(|i: int, s: SpanSlot| slot_model(s)),
        }
    }
}

/// Well-formedness of the interner: the generation counter is in range for
/// ids, every live slot was filled in a still-uncollected generation, and no
/// generation/location pair occupies two slots.
pub open spec fn view_inv(m: InternerView) -> bool {
    &&& 1 <= m.lifetime <= u32::MAX as nat
    &&& m.slots.len() <= u32::MAX as nat
    &&& forall|i: int|
        0 <= i < m.slots.len() ==> (match #[trigger] m.slots[i] {
            Some(e) => e.0 <= m.lifetime && m.lifetime < e.0 + COLLECT_WINDOW as nat,
            None => true,
        })
    &&& forall|i: int, j: int|
        0 <= i < j < m.slots.len() && #[trigger] m.slots[i] is Some ==> m.slots[i]
            != #[trigger] m.slots[j]
}

/// What a lookup answers: collected generation, missing slot, or the stored
/// location.
pub open spec fn spec_resolve(m: InternerView, id: InternId) -> InternQuery<u64> {
    if id.lifetime as nat + COLLECT_WINDOW as nat <= m.lifetime {
        InternQuery::UseAfterFree
    } else if id.id as nat >= m.slots.len() {
        InternQuery::NotFound
    } else {
        match m.slots[id.id as int] {
            Some(e) => InternQuery::Found(e.1),
            None => InternQuery::NotFound,
        }
    }
}

/// Opening a new generation: the counter advances and entries now outside
/// the window are freed, their slots kept but emptied.
pub open spec fn spec_reset(m: InternerView) -> InternerView {
    InternerView {
        lifetime: m.lifetime + 1,
        slots: m.slots.map(
            |i: int, s: Option<(nat, u64)>|
                match s {
                    Some(e) => if e.0 + COLLECT_WINDOW as nat <= m.lifetime + 1 {
                        None
                    } else {
                        Some(e)
                    },
                    None => None,
                },
        ),
    }
}

/// `k` resets in a row.
pub open spec fn spec_reset_n(m: InternerView, k: nat) -> InternerView
    decreases k,
{
    if k == 0 {
        m
    } else {
        spec_reset(spec_reset_n(m, (k - 1) as nat))
    }
}

pub open spec fn has_live_pair(m: InternerView, span: u64) -> bool {
    exists|i: int| 0 <= i < m.slots.len() && m.slots[i] == Some((m.lifetime, span))
}

pub open spec fn live_pair_index(m: InternerView, span: u64) -> int {
    choose|i: int| 0 <= i < m.slots.len() && m.slots[i] == Some((m.lifetime, span))
}

/// Interning: if the same location was already interned in the current
/// generation its id is handed out again, otherwise a fresh slot is taken.
pub open spec fn spec_intern(m: InternerView, span: u64) -> (InternerView, InternId) {
    if has_live_pair(m, span) {
        (m, InternId { lifetime: m.lifetime as u32, id: live_pair_index(m, span) as u32 })
    } else {
        (
            InternerView { lifetime: m.lifetime, slots: m.slots.push(Some((m.lifetime, span))) },
            InternId { lifetime: m.lifetime as u32, id: m.slots.len() as u32 },
        )
    }
}

impl SpanInternerImpl {
    pub fn new() -> (r: SpanInternerImpl)
        ensures
            r@.lifetime == 1,
            r@.slots =~= Seq::<Option<(nat, u64)>>::empty(),
            view_inv(r@),
    {
        let r = SpanInternerImpl { lifetime: 1, slots: Vec::new() };
        proof {
            assert(r@.slots =~= Seq::<Option<(nat, u64)>>::empty());
        }
        r
    }

    /// Interns a location in the current generation and returns its id.
    pub fn intern(&mut self, span: u64) -> (id: InternId)
        requires
            view_inv(old(self)@),
            old(self)@.slots.len() < u32::MAX as nat,
        ensures
            view_inv(final(self)@),
            (final(self)@, id) == spec_intern(old(self)@, span),
            spec_resolve(final(self)@, id) == InternQuery::Found(span),
    {
        let ghost m = self@;
        let n = self.slots.len();
        let mut i: usize = 0;
        while i < n
            invariant
                0 <= i <= n,
                n == self.slots.len(),
                self@ == m,
                view_inv(m),
                self.lifetime as nat == m.lifetime,
                forall|j: int| 0 <= j < i ==> m.slots[j] != Some((m.lifetime, span)),
            decreases n - i,
        {
            let sl = self.slots[i];
            match sl {
                SpanSlot::Live { lifetime, span: sp } => {
                    if lifetime == self.lifetime && sp == span {
                        assert(m.slots[i as int] == Some((m.lifetime, span)));
                        assert(has_live_pair(m, span));
                        proof {
                            let w = live_pair_index(m, span);
                            if w != i as int {
                                assert(m.slots[w] == Some((m.lifetime, span)));
                                if w < i as int {
                                    assert(m.slots[w] != m.slots[i as int]);
                                } else {
                                    assert(m.slots[i as int] != m.slots[w]);
                                }
                                assert(false);
                            }
                        }
                        return InternId::new(self.lifetime, i);
                    }
                },
                SpanSlot::Freed => {},
            }
            proof {
                assert(m.slots[i as int] == slot_model(sl));
            }
            i = i + 1;
        }
        assert(!has_live_pair(m, span));
        let id = InternId::new(self.lifetime, n);
        self.slots.push(SpanSlot::Live { lifetime: self.lifetime, span });
        proof {
            assert(self@.slots =~= m.slots.push(Some((m.lifetime, span))));
            assert(forall|j: int|
                0 <= j < m.slots.len() ==> self@.slots[j] == m.slots[j]);
        }
        id
    }

    /// Looks an id up without ever returning a location from a collected
    /// generation.
    pub fn span(&self, id: InternId) -> (r: InternQuery<u64>)
        requires
            view_inv(self@),
        ensures
            r == spec_resolve(self@, id),
    {
        if self.lifetime >= COLLECT_WINDOW && id.lifetime as usize <= self.lifetime
            - COLLECT_WINDOW {
            InternQuery::UseAfterFree
        } else if id.id as usize >= self.slots.len() {
            InternQuery::NotFound
        } else {
            let sl = self.slots[id.id as usize];
            proof {
                assert(self@.slots[id.id as int] == slot_model(sl));
            }
            match sl {
                SpanSlot::Live { lifetime: _, span } => InternQuery::Found(span),
                SpanSlot::Freed => InternQuery::NotFound,
            }
        }
    }

    /// Looks up an id written as a hexadecimal string.
    pub fn span_by_str(&self, s: &str) -> (r: InternQuery<u64>)
        requires
            view_inv(self@),
            1 <= s@.len() <= 16,
            forall|i: int| 0 <= i < s@.len() ==> spec_is_hex_digit(#[trigger] s@[i]),
        ensures
            r == spec_resolve(self@, spec_id_of_hex(s@)),
    {
        let id = InternId::from_hex(s);
        assert(id == spec_id_of_hex(s@));
        self.span(id)
    }

    /// Opens the next generation and frees entries older than the window.
    pub fn reset(&mut self)
        requires
            view_inv(old(self)@),
            old(self)@.lifetime < u32::MAX as nat,
        ensures
            final(self)@ == spec_reset(old(self)@),
            view_inv(final(self)@),
    {
        let ghost m = self@;
        self.lifetime = self.lifetime + 1;
        let n = self.slots.len();
        let mut i: usize = 0;
        while i < n
            invariant
                0 <= i <= n,
                n == self.slots.len(),
                view_inv(m),
                n == m.slots.len(),
                self.lifetime as nat == m.lifetime + 1,
                self.lifetime <= u32::MAX as usize,
                forall|j: int|
                    0 <= j < i ==> self@.slots[j] == spec_reset(m).slots[j],
                forall|j: int| i <= j < n ==> self@.slots[j] == m.slots[j],
            decreases n - i,
        {
            let sl = self.slots[i];
            proof {
                assert(m.slots[i as int] == slot_model(sl));
            }
            match sl {
                SpanSlot::Live { lifetime: g, span: _ } => {
                    if self.lifetime - g >= COLLECT_WINDOW {
                        self.slots[i] = SpanSlot::Freed;
                    }
                },
                SpanSlot::Freed => {},
            }
            proof {
                assert(self@.slots[i as int] == spec_reset(m).slots[i as int]);
            }
            i = i + 1;
        }
        proof {
            assert(self@.slots =~= spec_reset(m).slots);
            assert(self@ == spec_reset(m));
        }
    }
}

impl Default for SpanInternerImpl {
    fn default() -> (r: SpanInternerImpl)
        ensures
            r@.lifetime == 1,
            r@.slots =~= Seq::<Option<(nat, u64)>>::empty(),
            view_inv(r@),
    {
        SpanInternerImpl::new()
    }
}

/// The id that a hexadecimal string denotes.
pub open spec fn spec_id_of_hex(s: Seq<char>) -> InternId {
    InternId {
        lifetime: (spec_hex_val(s) / 0x1_0000_0000) as u32,
        id: (spec_hex_val(s) % 0x1_0000_0000) as u32,
    }
}

/// Every live slot was filled within the collection window of the current
/// generation.
pub open spec fn slots_in_window(m: InternerView) -> bool {
    forall|i: int|
        0 <= i < m.slots.len() ==> (match #[trigger] m.slots[i] {
            Some(e) => m.lifetime < e.0 + COLLECT_WINDOW as nat,
            None => true,
        })
}

/// After `k` resets the generation has advanced by `k` and a slot is freed
/// exactly when its generation has fallen out of the window.
pub proof fn lemma_reset_n_slots(m: InternerView, k: nat)
    requires
        slots_in_window(m),
    ensures
        spec_reset_n(m, k).lifetime == m.lifetime + k,
        spec_reset_n(m, k).slots.len() == m.slots.len(),
        forall|i: int|
            0 <= i < m.slots.len() ==> spec_reset_n(m, k).slots[i] == (match m.slots[i] {
                Some(e) => if e.0 + COLLECT_WINDOW as nat <= m.lifetime + k {
                    None
                } else {
                    Some(e)
                },
                None => None,
            }),
    decreases k,
{
    if k == 0 {
    } else {
        lemma_reset_n_slots(m, (k - 1) as nat);
        let prev = spec_reset_n(m, (k - 1) as nat);
        let cur = spec_reset_n(m, k);
        assert(cur == spec_reset(prev));
        assert(prev.slots.len() == m.slots.len());
        assert forall|i: int| 0 <= i < m.slots.len() implies cur.slots[i] == (match m.slots[i] {
            Some(e) => if e.0 + COLLECT_WINDOW as nat <= m.lifetime + k {
                None
            } else {
                Some(e)
            },
            None => None,
        }) by {
            assert(cur.slots[i] == (match prev.slots[i] {
                Some(e) => if e.0 + COLLECT_WINDOW as nat <= prev.lifetime + 1 {
                    None
                } else {
                    Some(e)
                },
                None => None,
            }));
        }
    }
}

/// Generational safety: an id handed out by `intern` resolves to exactly the
/// interned location for the next `COLLECT_WINDOW - 1` resets, and answers
/// `UseAfterFree` from the `COLLECT_WINDOW`-th reset on; never a wrong
/// location.
pub proof fn lemma_interner_generational_safety(m: InternerView, span: u64, k: nat)
    requires
        view_inv(m),
        m.slots.len() < u32::MAX as nat,
    ensures
        k < COLLECT_WINDOW as nat ==> spec_resolve(
            spec_reset_n(spec_intern(m, span).0, k),
            spec_intern(m, span).1,
        ) == InternQuery::Found(span),
        k >= COLLECT_WINDOW as nat ==> spec_resolve(
            spec_reset_n(spec_intern(m, span).0, k),
            spec_intern(m, span).1,
        ) == InternQuery::<u64>::UseAfterFree,
{
    let (m1, id) = spec_intern(m, span);
    let idx = id.id as int;
    assert(m.lifetime <= u32::MAX as nat);
    assert(id.lifetime as nat == m.lifetime);
    assert(0 <= idx < m1.slots.len());
    assert(m1.slots[idx] == Some((m.lifetime, span)));
    assert(m1.lifetime == m.lifetime);
    assert(slots_in_window(m1)) by {
        assert forall|i: int| 0 <= i < m1.slots.len() implies (match #[trigger] m1.slots[i] {
            Some(e) => m1.lifetime < e.0 + COLLECT_WINDOW as nat,
            None => true,
        }) by {
            if i < m.slots.len() {
                assert(m1.slots[i] == m.slots[i]);
            }
        }
    }
    lemma_reset_n_slots(m1, k);
    let mk = spec_reset_n(m1, k);
    assert(mk.lifetime == m.lifetime + k);
    if k >= COLLECT_WINDOW as nat {
        assert(id.lifetime as nat + COLLECT_WINDOW as nat <= mk.lifetime);
    } else {
        assert(id.lifetime as nat + COLLECT_WINDOW as nat > mk.lifetime);
        assert(mk.slots[idx] == Some((m.lifetime, span)));
    }
}

fn hex_digit_value(c: char) -> (d: u64)
    requires
        spec_is_hex_digit(c),
    ensures
        d == spec_hex_digit_val(c),
        d < 16,
{
    if '0' <= c && c <= '9' {
        c as u64 - '0' as u64
    } else if 'a' <= c && c <= 'f' {
        c as u64 - 'a' as u64 + 10
    } else {
        c as u64 - 'A' as u64 + 10
    }
}

} // verus!
