use vstd::prelude::*;

use crate::util::{be_u32, read_be_u32};
use crate::FdtError;

verus! {

broadcast use vstd::seq::group_seq_axioms;

/// Error type indicating that the cell value that was attempted to be collected
/// was too large for the desired type.
#[derive(Debug, Clone, Copy)]
pub struct CollectCellsError;

impl From<CollectCellsError> for FdtError {
    fn from(_v: CollectCellsError) -> (r: Self)
        ensures
            r == FdtError::CollectCellsError,
    {
        FdtError::CollectCellsError
    }
}

impl vstd::std_specs::convert::FromSpecImpl<CollectCellsError> for FdtError {
    open spec fn obeys_from_spec() -> bool {
        true
    }

    open spec fn from_spec(v: CollectCellsError) -> Self {
        FdtError::CollectCellsError
    }
}

/// The number that the big-endian `u32` cells `cells` spell out.
pub open spec fn be_value(cells: Seq<u32>) -> nat
    decreases cells.len(),
{
    if cells.len() == 0 {
        0
    } else {
        be_value(cells.drop_last()) * 0x1_0000_0000 + cells.last() as nat
    }
}

/// The cells held by `b`: its big-endian `u32`s, four bytes each; bytes left
/// over after the last whole cell are ignored.
pub open spec fn cells_of(b: Seq<u8>) -> Seq<u32> {
    Seq::new(b.len() / 4, |i: int| be_u32(b.subrange(4 * i, 4 * i + 4)))
}

/// A type which performs the underlying collection of cell-sized values into
/// the desired underlying type.
pub trait BuildCellCollector: Sized {
    /// Output of the builder.
    type Output;

    /// The cells pushed so far.
    spec fn pushed(&self) -> Seq<u32>;

    /// The builder's state agrees with the cells pushed so far.
    spec fn wf(&self) -> bool;

    /// Whether pushing `cells`, one after the other, succeeds.
    spec fn accepts(cells: Seq<u32>) -> bool;

    /// What the builder gives after `cells` have been pushed.
    spec fn result(cells: Seq<u32>) -> Self::Output;

    /// Nothing pushed is accepted.
    proof fn lemma_accepts_empty()
        ensures
            Self::accepts(Seq::empty()),
    ;

    /// A sequence that is accepted has its prefixes accepted too.
    proof fn lemma_accepts_prefix(cells: Seq<u32>, c: u32)
        ensures
            Self::accepts(cells.push(c)) ==> Self::accepts(cells),
    ;

    /// A builder with nothing pushed.
    fn new() -> (r: Self)
        ensures
            r.pushed() == Seq::<u32>::empty(),
            r.wf(),
    ;

    /// Push a new [`u32`] component of a cell-sized value. This can error
    /// whenever the value would overflow or otherwise be undesirable.
    fn push(&mut self, component: u32) -> (r: Result<(), CollectCellsError>)
        requires
            Self::accepts(old(self).pushed()),
            old(self).wf(),
        ensures
            r is Ok <==> Self::accepts(old(self).pushed().push(component)),
            r is Ok ==> final(self).pushed() == old(self).pushed().push(component) && final(self).wf(),
    ;

    /// Finish collecting components and return the collected value.
    fn finish(self) -> (r: Self::Output)
        requires
            Self::accepts(self.pushed()),
            self.wf(),
        ensures
            r == Self::result(self.pushed()),
    ;
}

/// A type which can be "collected" into from devicetree cell-sized values.
pub trait CellCollector: Sized {
    /// Underlying output type, this is usually the same as `Self`.
    type Output;
    /// Builder type used to collect the individual cell values into the desired type.
    type Builder: BuildCellCollector;

    /// What `map` gives for `b`.
    spec fn spec_map(b: <Self::Builder as BuildCellCollector>::Output) -> Self::Output;

    /// Maps the builder output to the desired underlying type.
    fn map(builder_out: <Self::Builder as BuildCellCollector>::Output) -> (r: Self::Output)
        ensures
            r == Self::spec_map(builder_out),
    ;
}

/// Collecting `cells` into `C`: its value, or the error when `C` cannot hold them.
pub open spec fn collect_cells<C: CellCollector>(cells: Seq<u32>) -> Result<C::Output, CollectCellsError> {
    if <C::Builder as BuildCellCollector>::accepts(cells) {
        Ok(C::spec_map(<C::Builder as BuildCellCollector>::result(cells)))
    } else {
        Err(CollectCellsError)
    }
}

proof fn lemma_accepts_take<B: BuildCellCollector>(cells: Seq<u32>, k: int)
    requires
        0 <= k <= cells.len(),
        B::accepts(cells),
    ensures
        B::accepts(cells.take(k)),
    decreases cells.len() - k,
{
    if k < cells.len() {
        lemma_accepts_take::<B>(cells, k + 1);
        B::lemma_accepts_prefix(cells.take(k), cells[k]);
        assert(cells.take(k + 1) =~= cells.take(k).push(cells[k]));
    } else {
        assert(cells.take(k) =~= cells);
    }
}

/// Pushes into a collector, one cell after the other, succeed up to the first
/// that fails and no further: a run of pushes that succeeds has every shorter
/// run succeed. For the integer collectors a run succeeds exactly when the
/// number it spells out fits, so the first failing push is the first whose
/// number overflows.
pub proof fn law_pushes_fail_from_the_first_failure<B: BuildCellCollector>(cells: Seq<u32>, k: int, m: int)
    requires
        0 <= k <= m <= cells.len(),
    ensures
        B::accepts(cells.take(m)) ==> B::accepts(cells.take(k)),
        BuildIntCollector::<u64>::accepts(cells.take(k)) <==> be_value(cells.take(k)) <= u64::MAX,
        BuildIntCollector::<u32>::accepts(cells.take(k)) <==> be_value(cells.take(k)) <= u32::MAX,
        BuildIntCollector::<u128>::accepts(cells.take(k)) <==> be_value(cells.take(k)) <= u128::MAX,
{
    if B::accepts(cells.take(m)) {
        lemma_accepts_take::<B>(cells.take(m), k);
        assert(cells.take(m).take(k) =~= cells.take(k));
    }
}

/// Collects the cells held by `bytes` into a value of `C`.
pub fn collect_from_bytes<C: CellCollector>(bytes: &[u8]) -> (r: Result<C::Output, CollectCellsError>)
    ensures
        r == collect_cells::<C>(cells_of(bytes@)),
{
    let ghost cells = cells_of(bytes@);
    let mut builder = <C::Builder as BuildCellCollector>::new();
    proof {
        <C::Builder as BuildCellCollector>::lemma_accepts_empty();
        assert(cells.take(0) =~= Seq::<u32>::empty());
    }
    let len = bytes.len();
    let n = len / 4;
    assert(4 * n <= bytes@.len());
    let mut i: usize = 0;
    while i < n
        invariant
            i <= n,
            4 * n <= bytes@.len(),
            bytes@.len() == len,
            n == bytes@.len() / 4,
            cells == cells_of(bytes@),
            builder.pushed() == cells.take(i as int),
            builder.wf(),
            <C::Builder as BuildCellCollector>::accepts(builder.pushed()),
        decreases n - i,
    {
        let chunk = &bytes[4 * i..4 * i + 4];
        let c = read_be_u32(chunk);
        let ghost before = builder.pushed();
        match builder.push(c) {
            Ok(()) => {},
            Err(e) => {
                proof {
                    assert(cells.take(i + 1) =~= before.push(c));
                    if <C::Builder as BuildCellCollector>::accepts(cells) {
                        lemma_accepts_take::<C::Builder>(cells, i + 1);
                    }
                }
                return Err(e);
            },
        }
        proof {
            assert(cells.take(i + 1) =~= before.push(c));
        }
        i = i + 1;
    }
    proof {
        assert(cells.take(n as int) =~= cells);
    }
    let out = builder.finish();
    Ok(C::map(out))
}

/// Generic integer type collector.
pub struct BuildIntCollector<Int> {
    value: Int,
    cells: Ghost<Seq<u32>>,
}

impl BuildCellCollector for BuildIntCollector<u32> {
    type Output = u32;

    closed spec fn pushed(&self) -> Seq<u32> {
        self.cells@
    }

    closed spec fn wf(&self) -> bool {
        self.value as nat == be_value(self.cells@)
    }

    open spec fn accepts(cells: Seq<u32>) -> bool {
        be_value(cells) <= u32::MAX
    }

    open spec fn result(cells: Seq<u32>) -> u32 {
        be_value(cells) as u32
    }

    proof fn lemma_accepts_empty() {
    }

    proof fn lemma_accepts_prefix(cells: Seq<u32>, c: u32) {
        assert(cells.push(c).drop_last() =~= cells);
    }

    fn new() -> (r: Self) {
        BuildIntCollector { value: 0, cells: Ghost(Seq::empty()) }
    }

    fn push(&mut self, component: u32) -> (r: Result<(), CollectCellsError>) {
        if self.value != 0 {
            proof {
                assert(old(self).pushed().push(component).drop_last() =~= old(self).pushed());
            }
            return Err(CollectCellsError);
        }
        self.value = component;
        proof {
            assert(old(self).pushed().push(component).drop_last() =~= old(self).pushed());
        }
        self.cells = Ghost(self.cells@.push(component));
        Ok(())
    }

    fn finish(self) -> (r: u32) {
        self.value
    }
}

impl BuildCellCollector for BuildIntCollector<u64> {
    type Output = u64;

    closed spec fn pushed(&self) -> Seq<u32> {
        self.cells@
    }

    closed spec fn wf(&self) -> bool {
        self.value as nat == be_value(self.cells@)
    }

    open spec fn accepts(cells: Seq<u32>) -> bool {
        be_value(cells) <= u64::MAX
    }

    open spec fn result(cells: Seq<u32>) -> u64 {
        be_value(cells) as u64
    }

    proof fn lemma_accepts_empty() {
    }

    proof fn lemma_accepts_prefix(cells: Seq<u32>, c: u32) {
        assert(cells.push(c).drop_last() =~= cells);
    }

    fn new() -> (r: Self) {
        BuildIntCollector { value: 0, cells: Ghost(Seq::empty()) }
    }

    fn push(&mut self, component: u32) -> (r: Result<(), CollectCellsError>) {
        proof {
            assert(old(self).pushed().push(component).drop_last() =~= old(self).pushed());
        }
        if self.value >= 0x1_0000_0000 {
            return Err(CollectCellsError);
        }
        self.value = self.value * 0x1_0000_0000 + component as u64;
        self.cells = Ghost(self.cells@.push(component));
        Ok(())
    }

    fn finish(self) -> (r: u64) {
        self.value
    }
}

impl BuildCellCollector for BuildIntCollector<u128> {
    type Output = u128;

    closed spec fn pushed(&self) -> Seq<u32> {
        self.cells@
    }

    closed spec fn wf(&self) -> bool {
        self.value as nat == be_value(self.cells@)
    }

    open spec fn accepts(cells: Seq<u32>) -> bool {
        be_value(cells) <= u128::MAX
    }

    open spec fn result(cells: Seq<u32>) -> u128 {
        be_value(cells) as u128
    }

    proof fn lemma_accepts_empty() {
    }

    proof fn lemma_accepts_prefix(cells: Seq<u32>, c: u32) {
        assert(cells.push(c).drop_last() =~= cells);
    }

    fn new() -> (r: Self) {
        BuildIntCollector { value: 0, cells: Ghost(Seq::empty()) }
    }

    fn push(&mut self, component: u32) -> (r: Result<(), CollectCellsError>) {
        proof {
            assert(old(self).pushed().push(component).drop_last() =~= old(self).pushed());
        }
        if self.value >= 0x1_0000_0000_0000_0000_0000_0000 {
            return Err(CollectCellsError);
        }
        self.value = self.value * 0x1_0000_0000 + component as u128;
        self.cells = Ghost(self.cells@.push(component));
        Ok(())
    }

    fn finish(self) -> (r: u128) {
        self.value
    }
}

/// Collector for [`usize`] values.
pub struct UsizeCollector {
    value: usize,
    cells: Ghost<Seq<u32>>,
}

impl BuildCellCollector for UsizeCollector {
    type Output = usize;

    closed spec fn pushed(&self) -> Seq<u32> {
        self.cells@
    }

    closed spec fn wf(&self) -> bool {
        self.value as nat == be_value(self.cells@)
    }

    open spec fn accepts(cells: Seq<u32>) -> bool {
        be_value(cells) <= usize::MAX
    }

    open spec fn result(cells: Seq<u32>) -> usize {
        be_value(cells) as usize
    }

    proof fn lemma_accepts_empty() {
    }

    proof fn lemma_accepts_prefix(cells: Seq<u32>, c: u32) {
        assert(cells.push(c).drop_last() =~= cells);
    }

    fn new() -> (r: Self) {
        UsizeCollector { value: 0, cells: Ghost(Seq::empty()) }
    }

    fn push(&mut self, component: u32) -> (r: Result<(), CollectCellsError>) {
        proof {
            assert(old(self).pushed().push(component).drop_last() =~= old(self).pushed());
        }
        let limit: usize = usize::MAX / 0x1_0000 / 0x1_0000;
        proof {
            assert(usize::MAX == 0xffff_ffff || usize::MAX == 0xffff_ffff_ffff_ffff);
        }
        if self.value > limit {
            return Err(CollectCellsError);
        }
        if self.value == 0 {
            self.value = component as usize;
        } else {
            self.value = self.value * 0x1_0000 * 0x1_0000 + component as usize;
        }
        self.cells = Ghost(self.cells@.push(component));
        Ok(())
    }

    fn finish(self) -> (r: usize) {
        self.value
    }
}

/// [`BuildCellCollector`] for [`Option<T>`]: `None` when no cell was pushed.
pub struct BuildOptionalCellCollector<T: CellCollector> {
    builder: T::Builder,
    used: bool,
}

impl<T: CellCollector> BuildCellCollector for BuildOptionalCellCollector<T> {
    type Output = Option<<T::Builder as BuildCellCollector>::Output>;

    closed spec fn pushed(&self) -> Seq<u32> {
        self.builder.pushed()
    }

    closed spec fn wf(&self) -> bool {
        self.builder.wf() && (self.used <==> self.builder.pushed().len() > 0)
    }

    open spec fn accepts(cells: Seq<u32>) -> bool {
        <T::Builder as BuildCellCollector>::accepts(cells)
    }

    open spec fn result(cells: Seq<u32>) -> Self::Output {
        if cells.len() == 0 {
            None
        } else {
            Some(<T::Builder as BuildCellCollector>::result(cells))
        }
    }

    proof fn lemma_accepts_empty() {
        <T::Builder as BuildCellCollector>::lemma_accepts_empty();
    }

    proof fn lemma_accepts_prefix(cells: Seq<u32>, c: u32) {
        <T::Builder as BuildCellCollector>::lemma_accepts_prefix(cells, c);
    }

    fn new() -> (r: Self) {
        BuildOptionalCellCollector { builder: <T::Builder as BuildCellCollector>::new(), used: false }
    }

    fn push(&mut self, component: u32) -> (r: Result<(), CollectCellsError>) {
        self.used = true;
        self.builder.push(component)
    }

    fn finish(self) -> (r: Self::Output) {
        if self.used {
            Some(self.builder.finish())
        } else {
            None
        }
    }
}

impl CellCollector for u32 {
    type Output = u32;
    type Builder = BuildIntCollector<u32>;

    open spec fn spec_map(b: u32) -> u32 {
        b
    }

    fn map(builder_out: u32) -> (r: u32) {
        builder_out
    }
}

impl CellCollector for u64 {
    type Output = u64;
    type Builder = BuildIntCollector<u64>;

    open spec fn spec_map(b: u64) -> u64 {
        b
    }

    fn map(builder_out: u64) -> (r: u64) {
        builder_out
    }
}

impl CellCollector for u128 {
    type Output = u128;
    type Builder = BuildIntCollector<u128>;

    open spec fn spec_map(b: u128) -> u128 {
        b
    }

    fn map(builder_out: u128) -> (r: u128) {
        builder_out
    }
}

impl CellCollector for usize {
    type Output = usize;
    type Builder = UsizeCollector;

    open spec fn spec_map(b: usize) -> usize {
        b
    }

    fn map(builder_out: usize) -> (r: usize) {
        builder_out
    }
}

impl<T: CellCollector> CellCollector for Option<T> {
    type Output = Option<T::Output>;
    type Builder = BuildOptionalCellCollector<T>;

    open spec fn spec_map(b: Option<<T::Builder as BuildCellCollector>::Output>) -> Option<T::Output> {
        match b {
            Some(x) => Some(T::spec_map(x)),
            None => None,
        }
    }

    fn map(builder_out: Option<<T::Builder as BuildCellCollector>::Output>) -> (r: Option<T::Output>) {
        match builder_out {
            Some(x) => Some(T::map(x)),
            None => None,
        }
    }
}

/// Collecting cells into a `u64` gives the number they spell out, and fails
/// exactly when that number does not fit in 64 bits.
pub proof fn law_collect_u64(cells: Seq<u32>)
    ensures
        be_value(cells) <= u64::MAX ==> collect_cells::<u64>(cells) == Ok::<u64, CollectCellsError>(be_value(cells) as u64),
        be_value(cells) > u64::MAX ==> collect_cells::<u64>(cells) is Err,
{
}

/// Collecting cells into a `u32` gives the number they spell out, and fails
/// exactly when that number does not fit in 32 bits.
pub proof fn law_collect_u32(cells: Seq<u32>)
    ensures
        be_value(cells) <= u32::MAX ==> collect_cells::<u32>(cells) == Ok::<u32, CollectCellsError>(be_value(cells) as u32),
        be_value(cells) > u32::MAX ==> collect_cells::<u32>(cells) is Err,
{
}

/// Collecting cells into an `Option` gives `None` for no cells, and the
/// collected value otherwise.
pub proof fn law_collect_option<T: CellCollector>(cells: Seq<u32>)
    ensures
        cells.len() == 0 ==> collect_cells::<Option<T>>(cells) == match collect_cells::<T>(cells) {
            Ok(_) => Ok::<Option<T::Output>, CollectCellsError>(None),
            Err(e) => Err(e),
        },
        cells.len() > 0 ==> collect_cells::<Option<T>>(cells) == match collect_cells::<T>(cells) {
            Ok(v) => Ok::<Option<T::Output>, CollectCellsError>(Some(v)),
            Err(e) => Err(e),
        },
{
}

/// Collector that keeps the low bits of the value spelled out by the cells,
/// so that collecting never fails; used for [`core::num::Wrapping`].
pub struct BuildWrappingIntCollector<Int> {
    value: Int,
    cells: Ghost<Seq<u32>>,
}

/// Shifting a 64-bit value up by one cell and putting `c` in the freed bits
/// keeps the low 64 bits of the number the cells spell out.
proof fn lemma_wrapping_step(v: nat, c: u32, m: nat)
    requires
        m == 0x1_0000_0000_0000_0000 || m == 0x1_0000_0000_0000_0000_0000_0000_0000_0000nat,
    ensures
        ((v % m) * 0x1_0000_0000 + c as nat) % m == (v * 0x1_0000_0000 + c as nat) % m,
{
    vstd::arithmetic::div_mod::lemma_mul_mod_noop_left(v as int, 0x1_0000_0000, m as int);
    vstd::arithmetic::div_mod::lemma_add_mod_noop((v % m) as int * 0x1_0000_0000, c as int, m as int);
    vstd::arithmetic::div_mod::lemma_add_mod_noop(v as int * 0x1_0000_0000, c as int, m as int);
}

impl BuildCellCollector for BuildWrappingIntCollector<u32> {
    type Output = u32;

    closed spec fn pushed(&self) -> Seq<u32> {
        self.cells@
    }

    closed spec fn wf(&self) -> bool {
        self.value as nat == be_value(self.cells@) % 0x1_0000_0000
    }

    open spec fn accepts(cells: Seq<u32>) -> bool {
        true
    }

    open spec fn result(cells: Seq<u32>) -> u32 {
        (be_value(cells) % 0x1_0000_0000) as u32
    }

    proof fn lemma_accepts_empty() {
    }

    proof fn lemma_accepts_prefix(cells: Seq<u32>, c: u32) {
    }

    fn new() -> (r: Self) {
        BuildWrappingIntCollector { value: 0, cells: Ghost(Seq::empty()) }
    }

    fn push(&mut self, component: u32) -> (r: Result<(), CollectCellsError>) {
        proof {
            let cells = old(self).pushed();
            assert(cells.push(component).drop_last() =~= cells);
            vstd::arithmetic::div_mod::lemma_mod_multiples_vanish(be_value(cells) as int, component as int, 0x1_0000_0000);
            vstd::arithmetic::div_mod::lemma_small_mod(component as nat, 0x1_0000_0000);
        }
        self.value = component;
        self.cells = Ghost(self.cells@.push(component));
        Ok(())
    }

    fn finish(self) -> (r: u32) {
        self.value
    }
}

impl BuildCellCollector for BuildWrappingIntCollector<u64> {
    type Output = u64;

    closed spec fn pushed(&self) -> Seq<u32> {
        self.cells@
    }

    closed spec fn wf(&self) -> bool {
        self.value as nat == be_value(self.cells@) % 0x1_0000_0000_0000_0000
    }

    open spec fn accepts(cells: Seq<u32>) -> bool {
        true
    }

    open spec fn result(cells: Seq<u32>) -> u64 {
        (be_value(cells) % 0x1_0000_0000_0000_0000) as u64
    }

    proof fn lemma_accepts_empty() {
    }

    proof fn lemma_accepts_prefix(cells: Seq<u32>, c: u32) {
    }

    fn new() -> (r: Self) {
        BuildWrappingIntCollector { value: 0, cells: Ghost(Seq::empty()) }
    }

    fn push(&mut self, component: u32) -> (r: Result<(), CollectCellsError>) {
        let v = self.value;
        let c = component as u64;
        let next = (v << 32) | c;
        proof {
            assert(c < 0x1_0000_0000);
            assert((v << 32u64) | c == ((v as int * 0x1_0000_0000 + c) % 0x1_0000_0000_0000_0000) as u64)
                by (bit_vector)
                requires
                    c < 0x1_0000_0000u64,
            ;
            let cells = old(self).pushed();
            assert(cells.push(component).drop_last() =~= cells);
            lemma_wrapping_step(be_value(cells), component, 0x1_0000_0000_0000_0000);
        }
        self.value = next;
        self.cells = Ghost(self.cells@.push(component));
        Ok(())
    }

    fn finish(self) -> (r: u64) {
        self.value
    }
}

impl BuildCellCollector for BuildWrappingIntCollector<u128> {
    type Output = u128;

    closed spec fn pushed(&self) -> Seq<u32> {
        self.cells@
    }

    closed spec fn wf(&self) -> bool {
        self.value as nat == be_value(self.cells@) % 0x1_0000_0000_0000_0000_0000_0000_0000_0000nat
    }

    open spec fn accepts(cells: Seq<u32>) -> bool {
        true
    }

    open spec fn result(cells: Seq<u32>) -> u128 {
        (be_value(cells) % 0x1_0000_0000_0000_0000_0000_0000_0000_0000nat) as u128
    }

    proof fn lemma_accepts_empty() {
    }

    proof fn lemma_accepts_prefix(cells: Seq<u32>, c: u32) {
    }

    fn new() -> (r: Self) {
        BuildWrappingIntCollector { value: 0, cells: Ghost(Seq::empty()) }
    }

    fn push(&mut self, component: u32) -> (r: Result<(), CollectCellsError>) {
        let v = self.value;
        let c = component as u128;
        let next = (v << 32) | c;
        proof {
            assert(c < 0x1_0000_0000);
            assert((v << 32u128) | c == ((v as int * 0x1_0000_0000 + c) % 0x1_0000_0000_0000_0000_0000_0000_0000_0000int) as u128)
                by (bit_vector)
                requires
                    c < 0x1_0000_0000u128,
            ;
            let cells = old(self).pushed();
            assert(cells.push(component).drop_last() =~= cells);
            lemma_wrapping_step(be_value(cells), component, 0x1_0000_0000_0000_0000_0000_0000_0000_0000nat);
        }
        self.value = next;
        self.cells = Ghost(self.cells@.push(component));
        Ok(())
    }

    fn finish(self) -> (r: u128) {
        self.value
    }
}

/// `core::num::Wrapping`, which collecting cells into never fails.
#[verifier::external_type_specification]
#[verifier::external_body]
#[verifier::reject_recursive_types(T)]
pub struct ExWrapping<T>(core::num::Wrapping<T>);

impl CellCollector for core::num::Wrapping<u32> {
    type Output = u32;
    type Builder = BuildWrappingIntCollector<u32>;

    open spec fn spec_map(b: u32) -> u32 {
        b
    }

    fn map(builder_out: u32) -> (r: u32) {
        builder_out
    }
}

impl CellCollector for core::num::Wrapping<u64> {
    type Output = u64;
    type Builder = BuildWrappingIntCollector<u64>;

    open spec fn spec_map(b: u64) -> u64 {
        b
    }

    fn map(builder_out: u64) -> (r: u64) {
        builder_out
    }
}

impl CellCollector for core::num::Wrapping<u128> {
    type Output = u128;
    type Builder = BuildWrappingIntCollector<u128>;

    open spec fn spec_map(b: u128) -> u128 {
        b
    }

    fn map(builder_out: u128) -> (r: u128) {
        builder_out
    }
}

/// Collecting cells into `Wrapping<u32>` never fails and gives the low 32
/// bits of the number they spell out.
pub proof fn law_collect_wrapping_u32(cells: Seq<u32>)
    ensures
        collect_cells::<core::num::Wrapping<u32>>(cells)
            == Ok::<u32, CollectCellsError>((be_value(cells) % 0x1_0000_0000) as u32),
{
}

/// Collecting cells into `Wrapping<u64>` never fails and gives the low 64
/// bits of the number they spell out.
pub proof fn law_collect_wrapping_u64(cells: Seq<u32>)
    ensures
        collect_cells::<core::num::Wrapping<u64>>(cells)
            == Ok::<u64, CollectCellsError>((be_value(cells) % 0x1_0000_0000_0000_0000) as u64),
{
}

/// Collecting cells into `Wrapping<u128>` never fails and gives the low 128
/// bits of the number they spell out.
pub proof fn law_collect_wrapping_u128(cells: Seq<u32>)
    ensures
        collect_cells::<core::num::Wrapping<u128>>(cells)
            == Ok::<u128, CollectCellsError>((be_value(cells) % 0x1_0000_0000_0000_0000_0000_0000_0000_0000nat) as u128),
{
}

} // verus!
