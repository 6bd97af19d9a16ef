//! What a witness opens: the leaf it runs, the preimages and digits it reveals.

use vstd::prelude::*;

use crate::decode::gadgets::{
    block_views, blocks_sized, digit_views, gadget_views, gadgets_from, parse_gadgets, BlockView, Gadget,
    GadgetView, Parsed, WotsBlock,
};
use crate::decode::instructions::{parse_script, read_scriptint, readable};
use crate::decode::text::{head4, hex4, hex_encode, hex_text};
use crate::hashing::{hash160, hash160_spec, same_hash, Hash160};
use crate::lamport::items_view;
use crate::lamport::winternitz::hash_times_spec;
use crate::script::machine::{bytes_num, lemma_bytes_num_bound};

verus! {

// ----- the leaf of a witness -----

/// Whether the last of at least two elements is an annex.
pub open spec fn has_annex(items: Seq<Seq<u8>>) -> bool {
    items.len() >= 2 && items.last().len() > 0 && items.last()[0] == 0x50
}

/// The leaf script and the control block of a script-path spend: the last two
/// elements, before the annex if there is one.
pub open spec fn script_spend(items: Seq<Seq<u8>>) -> Option<(Seq<u8>, Seq<u8>)> {
    let n = if has_annex(items) {
        items.len() - 1
    } else {
        items.len() as int
    };
    if n >= 2 {
        Some((items[n - 2], items[n - 1]))
    } else {
        None
    }
}

/// The leaf script of a witness: that of a script-path spend whose control block
/// is 33 bytes or longer and does not name the annex's version.
pub open spec fn leaf_script(items: Seq<Seq<u8>>) -> Option<Seq<u8>> {
    match script_spend(items) {
        Some((script, control)) => if control.len() >= 33 && control[0] & 0xfe != 0x50 {
            Some(script)
        } else {
            None
        },
        None => None,
    }
}

/// The bytes that a length takes.
pub open spec fn length_size(n: nat) -> nat {
    if n < 0xfd {
        1
    } else if n <= 0xffff {
        3
    } else if n <= 0xffff_ffff {
        5
    } else {
        9
    }
}

/// The bytes that elements take in a witness, each with its length.
pub open spec fn witness_len(items: Seq<Seq<u8>>) -> nat
    decreases items.len(),
{
    if items.len() == 0 {
        0
    } else {
        witness_len(items.drop_last()) + items.last().len() + length_size(items.last().len())
    }
}

/// Whether a witness can hold the elements: the last starts at a place that 32 bits
/// can write, and all of them with their places, four bytes each, can be allocated.
pub open spec fn fits_witness(items: Seq<Seq<u8>>) -> bool {
    &&& items.len() > 0 ==> witness_len(items.drop_last()) <= u32::MAX
    &&& witness_len(items) + 4 * items.len() <= isize::MAX
}

/// Whether a witness can hold the elements.
pub fn is_witness_sized(items: &Vec<Vec<u8>>) -> (r: bool)
    ensures
        r == fits_witness(items_view(items@)),
{
    let ghost all = items_view(items@);
    let max: u128 = isize::MAX as u128;
    let mut len: u128 = 0;
    assert(all.take(0).len() == 0);
    for i in 0..items.len()
        invariant
            all == items_view(items@),
            max == isize::MAX,
            len == witness_len(all.take(i as int)),
            i > 0 ==> witness_len(all.take(i - 1)) <= u32::MAX,
            len <= max,
    {
        assert(all.take(i + 1).drop_last() =~= all.take(i as int));
        assert(all.take(i + 1).last() == items@[i as int]@);
        proof {
            lemma_witness_len_grows(all.drop_last(), i as int);
            lemma_witness_len_grows(all, i + 1);
            assert(all.drop_last().take(i as int) =~= all.take(i as int));
        }
        if len > u32::MAX as u128 {
            return false;
        }
        let n: u128 = items[i].len() as u128;
        let size: u128 = if n < 0xfd {
            1
        } else if n <= 0xffff {
            3
        } else if n <= 0xffff_ffff {
            5
        } else {
            9
        };
        if len + n + size > max {
            return false;
        }
        len = len + n + size;
    }
    assert(all.take(all.len() as int) =~= all);
    proof {
        if all.len() > 0 {
            assert(all.take(all.len() - 1) =~= all.drop_last());
        }
    }
    len + 4 * items.len() as u128 <= max
}

proof fn lemma_witness_len_grows(items: Seq<Seq<u8>>, k: int)
    requires
        0 <= k <= items.len(),
    ensures
        witness_len(items.take(k)) <= witness_len(items),
    decreases items.len(),
{
    if k < items.len() {
        lemma_witness_len_grows(items.drop_last(), k);
        assert(items.drop_last().take(k) =~= items.take(k));
    } else {
        assert(items.take(k) =~= items);
    }
}

/// Calls `bitcoin::Witness::taproot_leaf_script` on a witness of these elements
/// and hands out the script's bytes. The contract claims which element it is and
/// when there is one. `bitcoin::Witness::from_slice`, which makes the witness,
/// panics where the elements do not fit.
#[verifier::external_body]
pub(crate) fn taproot_leaf_script(items: &Vec<Vec<u8>>) -> (script: Option<Vec<u8>>)
    requires
        fits_witness(items_view(items@)),
    ensures
        match leaf_script(items_view(items@)) {
            Some(s) => script matches Some(v) && v@ == s,
            None => script is None,
        },
{
    let witness = bitcoin::Witness::from_slice(items);
    witness.taproot_leaf_script().map(|leaf| leaf.script.to_bytes())
}

/// Calls `bitcoin::Witness::taproot_control_block` on a witness of these
/// elements. The contract claims which element it is and when there is one.
/// `bitcoin::Witness::from_slice`, which makes the witness, panics where the
/// elements do not fit.
#[verifier::external_body]
pub(crate) fn taproot_control_block(items: &Vec<Vec<u8>>) -> (control: Option<Vec<u8>>)
    requires
        fits_witness(items_view(items@)),
    ensures
        match script_spend(items_view(items@)) {
            Some((_, c)) => control matches Some(v) && v@ == c,
            None => control is None,
        },
{
    let witness = bitcoin::Witness::from_slice(items);
    witness.taproot_control_block().map(|control| control.to_vec())
}

// ----- resolving hashes -----

/// How many bit gadgets (decoded or expected bits) there are.
pub open spec fn bit_gadgets(gadgets: Seq<GadgetView>) -> nat
    decreases gadgets.len(),
{
    if gadgets.len() == 0 {
        0
    } else {
        bit_gadgets(gadgets.drop_last()) + match gadgets.last() {
            GadgetView::BitDecode { h0, h1, dropped } => 1nat,
            GadgetView::ExpectBit { h } => 1nat,
            _ => 0nat,
        }
    }
}

/// The bit gadget that a hash opens, counted among the bit gadgets, and the bit:
/// the last gadget that has the hash, the hash of 1 before that of 0.
pub open spec fn opened_bit(gadgets: Seq<GadgetView>, hash: Seq<u8>) -> Option<(nat, bool)>
    decreases gadgets.len(),
{
    if gadgets.len() == 0 {
        None
    } else {
        let k = bit_gadgets(gadgets.drop_last());
        match gadgets.last() {
            GadgetView::BitDecode { h0, h1, dropped } => if hash == h1 {
                Some((k, true))
            } else if hash == h0 {
                Some((k, false))
            } else {
                opened_bit(gadgets.drop_last(), hash)
            },
            GadgetView::ExpectBit { h } => if hash == h {
                Some((k, true))
            } else {
                opened_bit(gadgets.drop_last(), hash)
            },
            _ => opened_bit(gadgets.drop_last(), hash),
        }
    }
}

fn find_opened_bit(gadgets: &Vec<Gadget>, hash: &Hash160) -> (r: Option<(usize, bool)>)
    ensures
        match opened_bit(gadget_views(gadgets@), hash@) {
            Some((k, bit)) => r matches Some((x, y)) && x == k && y == bit && k < bit_gadgets(
                gadget_views(gadgets@),
            ),
            None => r is None,
        },
        bit_gadgets(gadget_views(gadgets@)) <= gadgets@.len(),
{
    let ghost all = gadget_views(gadgets@);
    let mut found: Option<(usize, bool)> = None;
    let mut k: usize = 0;
    assert(all.take(0).len() == 0);
    for i in 0..gadgets.len()
        invariant
            all == gadget_views(gadgets@),
            k <= i,
            k == bit_gadgets(all.take(i as int)),
            match opened_bit(all.take(i as int), hash@) {
                Some((n, bit)) => found matches Some((x, y)) && x == n && y == bit && n < k,
                None => found is None,
            },
    {
        assert(all.take(i + 1).drop_last() =~= all.take(i as int));
        assert(all.take(i + 1).last() == gadgets@[i as int]@);
        match &gadgets[i] {
            Gadget::BitDecode { h0, h1, dropped } => {
                if same_hash(hash, h1) {
                    found = Some((k, true));
                } else if same_hash(hash, h0) {
                    found = Some((k, false));
                }
                k = k + 1;
            },
            Gadget::ExpectBit { h } => {
                if same_hash(hash, h) {
                    found = Some((k, true));
                }
                k = k + 1;
            },
            _ => {},
        }
    }
    assert(all.take(all.len() as int) =~= all);
    found
}

/// The first place of `h` among public digits from `j` on.
pub open spec fn digit_place(digits: Seq<Seq<u8>>, h: Seq<u8>, j: int) -> Option<int>
    decreases digits.len() - j,
{
    if j < 0 || j >= digits.len() {
        None
    } else if digits[j] == h {
        Some(j)
    } else {
        digit_place(digits, h, j + 1)
    }
}

/// The first block from `b` on that has `h` among its digits, and the digit it
/// is. Digits beyond those that the block's finale closes do not count.
pub open spec fn block_digit(blocks: Seq<BlockView>, h: Seq<u8>, b: int) -> Option<(int, int)>
    decreases blocks.len() - b,
{
    if b < 0 || b >= blocks.len() {
        None
    } else {
        match digit_place(blocks[b].digits, h, 0) {
            Some(j) => if j < blocks[b].msg + blocks[b].ck {
                Some((b, blocks[b].msg + blocks[b].ck - 1 - j))
            } else {
                block_digit(blocks, h, b + 1)
            },
            None => block_digit(blocks, h, b + 1),
        }
    }
}

/// The block, the digit and the value that a hash chain element resolves to: the
/// fewest hashes, from `k` up to 15, that reach a public digit. A digit of value
/// v is reached after 15 - v hashes.
pub open spec fn resolved(blocks: Seq<BlockView>, arg: Seq<u8>, k: int) -> Option<(int, int, int)>
    decreases 16 - k,
{
    if k < 0 || k > 15 {
        None
    } else {
        match block_digit(blocks, hash_times_spec(arg, k as nat), 0) {
            Some((b, digit)) => Some((b, digit, 15 - k)),
            None => resolved(blocks, arg, k + 1),
        }
    }
}

fn find_digit(digits: &Vec<[u8; 20]>, h: &Hash160) -> (r: Option<usize>)
    ensures
        match digit_place(digit_views(digits@), h@, 0) {
            Some(j) => r matches Some(k) && k == j && j < digits@.len(),
            None => r is None,
        },
{
    let ghost all = digit_views(digits@);
    for j in 0..digits.len()
        invariant
            all == digit_views(digits@),
            digit_place(all, h@, 0) == digit_place(all, h@, j as int),
    {
        assert(all[j as int] == digits@[j as int]@);
        if same_hash(&digits[j], h) {
            return Some(j);
        }
    }
    None
}

fn find_block_digit(blocks: &Vec<WotsBlock>, h: &Hash160) -> (r: Option<(usize, usize)>)
    requires
        blocks_sized(blocks@),
    ensures
        match block_digit(block_views(blocks@), h@, 0) {
            Some((b, digit)) => r matches Some((x, y)) && x == b && y == digit && b < blocks@.len(),
            None => r is None,
        },
{
    let ghost all = block_views(blocks@);
    for b in 0..blocks.len()
        invariant
            blocks_sized(blocks@),
            all == block_views(blocks@),
            block_digit(all, h@, 0) == block_digit(all, h@, b as int),
    {
        assert(all[b as int] == blocks@[b as int]@);
        assert(all[b as int].digits =~= digit_views(blocks@[b as int].digits@));
        let total: usize = blocks[b].msg + blocks[b].ck;
        if let Some(j) = find_digit(&blocks[b].digits, h) {
            if j < total {
                return Some((b, total - 1 - j));
            }
        }
    }
    None
}

/// Forward-hash a 20-byte witness element 0 to 15 times; if it lands on a public
/// digit of one of the leaf's verify blocks, the block, the digit's index and its
/// value.
pub fn resolve_wots(blocks: &Vec<WotsBlock>, arg: &[u8]) -> (r: Option<(usize, usize, i64)>)
    requires
        blocks_sized(blocks@),
    ensures
        if arg@.len() == 20 {
            match resolved(block_views(blocks@), arg@, 0) {
                Some((b, digit, v)) => r matches Some((x, y, z)) && x == b && y == digit && z == v,
                None => r is None,
            }
        } else {
            r is None
        },
{
    if arg.len() != 20 {
        return None;
    }
    let mut h: Hash160 = [0u8; 20];
    for i in 0..20usize
        invariant
            arg@.len() == 20,
            forall|j: int| 0 <= j < i ==> h@[j] == arg@[j],
    {
        h[i] = arg[i];
    }
    assert(h@ =~= arg@);
    let ghost all = block_views(blocks@);
    for k in 0..16i64
        invariant
            arg@.len() == 20,
            blocks_sized(blocks@),
            all == block_views(blocks@),
            h@ == hash_times_spec(arg@, k as nat),
            resolved(all, arg@, 0) == resolved(all, arg@, k as int),
    {
        if let Some((b, digit)) = find_block_digit(blocks, &h) {
            return Some((b, digit, 15 - k));
        }
        h = hash160(h.as_slice());
    }
    None
}

// ----- the arguments of a script-path spend -----

/// One witness argument, as far as it can be read.
#[derive(Debug, PartialEq, Eq)]
pub enum Arg {
    /// 64 bytes; the first eight in hexadecimal.
    Signature { head: String },
    /// A preimage that opens a bit gadget.
    Preimage { head: String, gadget: usize, bit: bool },
    /// A hash chain element of a digit, and the number declared beside it.
    WotsReveal { head: String, block: usize, digit: usize, value: i64, declared: Option<i64> },
    /// 20 bytes that open no hash of the leaf.
    Unopened { head: String },
    /// A script number; 0 where it is not minimal.
    Number(i64),
    /// 32 bytes, perhaps a revocation secret.
    Secret { head: String },
    /// Anything else.
    Bytes { len: usize, hex: String },
}

/// An argument as a mathematical value.
pub enum ArgView {
    Signature { head: Seq<char> },
    Preimage { head: Seq<char>, gadget: nat, bit: bool },
    WotsReveal { head: Seq<char>, block: int, digit: int, value: int, declared: Option<int> },
    Unopened { head: Seq<char> },
    Number(int),
    Secret { head: Seq<char> },
    Bytes { len: nat, hex: Seq<char> },
}

impl View for Arg {
    type V = ArgView;

    open spec fn view(&self) -> ArgView {
        match self {
            Arg::Signature { head } => ArgView::Signature { head: head@ },
            Arg::Preimage { head, gadget, bit } => ArgView::Preimage {
                head: head@,
                gadget: *gadget as nat,
                bit: *bit,
            },
            Arg::WotsReveal { head, block, digit, value, declared } => ArgView::WotsReveal {
                head: head@,
                block: *block as int,
                digit: *digit as int,
                value: *value as int,
                declared: match declared {
                    Some(d) => Some(*d as int),
                    None => None,
                },
            },
            Arg::Unopened { head } => ArgView::Unopened { head: head@ },
            Arg::Number(n) => ArgView::Number(*n as int),
            Arg::Secret { head } => ArgView::Secret { head: head@ },
            Arg::Bytes { len, hex } => ArgView::Bytes { len: *len as nat, hex: hex@ },
        }
    }
}

/// The number that a short element is, 0 where it is not minimal.
pub open spec fn short_number(item: Seq<u8>) -> int {
    match bytes_num(item) {
        Some(v) => v,
        None => 0,
    }
}

/// What an argument is, given the argument consumed before it.
pub open spec fn arg_of(
    gadgets: Seq<GadgetView>,
    blocks: Seq<BlockView>,
    item: Seq<u8>,
    before: Option<Seq<u8>>,
) -> ArgView {
    if item.len() == 64 {
        ArgView::Signature { head: hex_text(item.take(8)) }
    } else if item.len() == 20 {
        let head = hex_text(head4(item));
        match opened_bit(gadgets, hash160_spec(item)) {
            Some((gadget, bit)) => ArgView::Preimage { head, gadget, bit },
            None => match resolved(blocks, item, 0) {
                Some((block, digit, value)) => ArgView::WotsReveal {
                    head,
                    block,
                    digit,
                    value,
                    declared: match before {
                        Some(prev) => if prev.len() <= 4 {
                            Some(short_number(prev))
                        } else {
                            None
                        },
                        None => None,
                    },
                },
                None => ArgView::Unopened { head },
            },
        }
    } else if item.len() <= 4 {
        ArgView::Number(short_number(item))
    } else if item.len() == 32 {
        ArgView::Secret { head: hex_text(head4(item)) }
    } else {
        ArgView::Bytes { len: item.len(), hex: hex_text(item) }
    }
}

/// Argument `idx` of `n` in consumption order, the top of the stack first.
pub open spec fn consumed(items: Seq<Seq<u8>>, n: int, idx: int) -> Seq<u8> {
    items[n - 1 - idx]
}

/// The first `k` arguments in consumption order.
pub open spec fn args_of(
    gadgets: Seq<GadgetView>,
    blocks: Seq<BlockView>,
    items: Seq<Seq<u8>>,
    n: int,
    k: int,
) -> Seq<ArgView> {
    Seq::new(
        k as nat,
        |idx: int|
            arg_of(
                gadgets,
                blocks,
                consumed(items, n, idx),
                if idx > 0 {
                    Some(consumed(items, n, idx - 1))
                } else {
                    None
                },
            ),
    )
}

/// The views of arguments.
pub open spec fn arg_views(args: Seq<Arg>) -> Seq<ArgView> {
    Seq::new(args.len(), |i: int| args[i]@)
}

fn short_num(item: &Vec<u8>) -> (n: i64)
    ensures
        n == short_number(item@),
{
    proof {
        lemma_bytes_num_bound(item@);
    }
    match read_scriptint(item.as_slice()) {
        Some(n) => n,
        None => 0,
    }
}

/// Read one argument.
fn read_arg(parsed: &Parsed, item: &Vec<u8>, before: Option<&Vec<u8>>) -> (arg: Arg)
    requires
        blocks_sized(parsed.blocks@),
    ensures
        arg@ == arg_of(
            gadget_views(parsed.gadgets@),
            block_views(parsed.blocks@),
            item@,
            match before {
                Some(prev) => Some(prev@),
                None => None,
            },
        ),
{
    if item.len() == 64 {
        let head: &[u8] = vstd::slice::slice_subrange(item.as_slice(), 0, 8);
        assert(head@ =~= item@.take(8));
        return Arg::Signature { head: hex_encode(head) };
    }
    if item.len() == 20 {
        let head: String = hex4(item.as_slice());
        let h: Hash160 = hash160(item.as_slice());
        if let Some((gadget, bit)) = find_opened_bit(&parsed.gadgets, &h) {
            return Arg::Preimage { head, gadget, bit };
        }
        if let Some((block, digit, value)) = resolve_wots(&parsed.blocks, item.as_slice()) {
            let declared: Option<i64> = match before {
                Some(prev) => if prev.len() <= 4 {
                    Some(short_num(prev))
                } else {
                    None
                },
                None => None,
            };
            return Arg::WotsReveal { head, block, digit, value, declared };
        }
        return Arg::Unopened { head };
    }
    if item.len() <= 4 {
        return Arg::Number(short_num(item));
    }
    if item.len() == 32 {
        return Arg::Secret { head: hex4(item.as_slice()) };
    }
    Arg::Bytes { len: item.len(), hex: hex_encode(item.as_slice()) }
}

fn read_args(parsed: &Parsed, items: &Vec<Vec<u8>>, n: usize) -> (args: Vec<Arg>)
    requires
        blocks_sized(parsed.blocks@),
        n <= items@.len(),
    ensures
        arg_views(args@) == args_of(
            gadget_views(parsed.gadgets@),
            block_views(parsed.blocks@),
            items_view(items@),
            n as int,
            n as int,
        ),
{
    let ghost gs = gadget_views(parsed.gadgets@);
    let ghost bs = block_views(parsed.blocks@);
    let ghost all = items_view(items@);
    let mut args: Vec<Arg> = Vec::with_capacity(n);
    for idx in 0..n
        invariant
            blocks_sized(parsed.blocks@),
            n <= items@.len(),
            gs == gadget_views(parsed.gadgets@),
            bs == block_views(parsed.blocks@),
            all == items_view(items@),
            args@.len() == idx,
            forall|j: int|
                0 <= j < idx ==> (#[trigger] args@[j])@ == args_of(gs, bs, all, n as int, n as int)[j],
    {
        let before: Option<&Vec<u8>> = if idx > 0 {
            Some(&items[n - idx])
        } else {
            None
        };
        args.push(read_arg(parsed, &items[n - 1 - idx], before));
    }
    assert(arg_views(args@) =~= args_of(gs, bs, all, n as int, n as int));
    args
}

// ----- runs of decoded bits -----

/// A run of consecutive bit gadgets of one kind, and the bits opened in it, most
/// significant first.
#[derive(Debug, PartialEq, Eq)]
pub struct BitRun {
    /// Whether the run decodes bits; otherwise it expects a fixed statement.
    pub decoded: bool,
    pub bits: Vec<bool>,
}

/// A run as a mathematical value.
pub struct RunView {
    pub decoded: bool,
    pub bits: Seq<bool>,
}

impl View for BitRun {
    type V = RunView;

    open spec fn view(&self) -> RunView {
        RunView { decoded: self.decoded, bits: self.bits@ }
    }
}

/// The bits that arguments open, with their gadgets, in order.
pub open spec fn opened_bits(args: Seq<ArgView>) -> Seq<(nat, bool)>
    decreases args.len(),
{
    if args.len() == 0 {
        Seq::empty()
    } else {
        match args.last() {
            ArgView::Preimage { head, gadget, bit } => opened_bits(args.drop_last()).push(
                (gadget, bit),
            ),
            _ => opened_bits(args.drop_last()),
        }
    }
}

/// `x` put into a sorted list, behind everything that is not above it.
pub open spec fn insert_bit(s: Seq<(nat, bool)>, x: (nat, bool)) -> Seq<(nat, bool)>
    decreases s.len(),
{
    if s.len() == 0 || s.last().0 <= x.0 {
        s.push(x)
    } else {
        insert_bit(s.drop_last(), x).push(s.last())
    }
}

/// Bits sorted by gadget; those of one gadget keep their order.
pub open spec fn sort_bits(s: Seq<(nat, bool)>) -> Seq<(nat, bool)>
    decreases s.len(),
{
    if s.len() == 0 {
        s
    } else {
        insert_bit(sort_bits(s.drop_last()), s.last())
    }
}

/// Whether bit gadget `k` decodes its bit (rather than expect it).
pub open spec fn decodes(gadgets: Seq<GadgetView>, k: nat) -> bool
    decreases gadgets.len(),
{
    if gadgets.len() == 0 {
        false
    } else {
        let here = bit_gadgets(gadgets.drop_last());
        match gadgets.last() {
            GadgetView::BitDecode { h0, h1, dropped } => if here == k {
                true
            } else {
                decodes(gadgets.drop_last(), k)
            },
            GadgetView::ExpectBit { h } => if here == k {
                false
            } else {
                decodes(gadgets.drop_last(), k)
            },
            _ => decodes(gadgets.drop_last(), k),
        }
    }
}

/// Sorted bits grouped into runs: a bit joins the run before it if its gadget
/// follows on that of the last bit and is of the run's kind.
pub open spec fn runs_of(gadgets: Seq<GadgetView>, s: Seq<(nat, bool)>) -> Seq<RunView>
    decreases s.len(),
{
    if s.len() == 0 {
        Seq::empty()
    } else {
        let before = runs_of(gadgets, s.drop_last());
        let (g, bit) = s.last();
        let kind = decodes(gadgets, g);
        if s.len() >= 2 && s[s.len() - 2].0 + 1 == g && before.len() > 0 && before.last().decoded
            == kind {
            before.drop_last().push(
                RunView { decoded: kind, bits: before.last().bits.push(bit) },
            )
        } else {
            before.push(RunView { decoded: kind, bits: seq![bit] })
        }
    }
}

/// Opened bits as mathematical values.
pub open spec fn bit_views(bits: Seq<(usize, bool)>) -> Seq<(nat, bool)> {
    Seq::new(bits.len(), |i: int| (bits[i].0 as nat, bits[i].1))
}

/// The views of runs.
pub open spec fn run_views(runs: Seq<BitRun>) -> Seq<RunView> {
    Seq::new(runs.len(), |i: int| runs[i]@)
}

fn collect_bits(args: &Vec<Arg>) -> (bits: Vec<(usize, bool)>)
    ensures
        bit_views(bits@) == opened_bits(arg_views(args@)),
{
    let ghost all = arg_views(args@);
    let mut bits: Vec<(usize, bool)> = Vec::new();
    assert(all.take(0).len() == 0);
    assert(bit_views(bits@) =~= Seq::<(nat, bool)>::empty());
    for i in 0..args.len()
        invariant
            all == arg_views(args@),
            bit_views(bits@) == opened_bits(all.take(i as int)),
    {
        let ghost before = bits@;
        assert(all.take(i + 1).drop_last() =~= all.take(i as int));
        assert(all.take(i + 1).last() == args@[i as int]@);
        match &args[i] {
            Arg::Preimage { head, gadget, bit } => {
                bits.push((*gadget, *bit));
                assert(bit_views(bits@) =~= bit_views(before).push((*gadget as nat, *bit)));
            },
            _ => {},
        }
    }
    assert(all.take(all.len() as int) =~= all);
    bits
}

/// Where insertion puts an element.
proof fn lemma_insert_bit(s: Seq<(nat, bool)>, x: (nat, bool), p: int)
    requires
        0 <= p <= s.len(),
        p == 0 || s[p - 1].0 <= x.0,
        forall|j: int| p <= j < s.len() ==> (#[trigger] s[j]).0 > x.0,
    ensures
        insert_bit(s, x) == s.insert(p, x),
    decreases s.len(),
{
    if p == s.len() {
        assert(s.insert(p, x) =~= s.push(x));
    } else {
        assert(s[s.len() - 1].0 > x.0);
        lemma_insert_bit(s.drop_last(), x, p);
        assert(s.insert(p, x) =~= s.drop_last().insert(p, x).push(s.last()));
    }
}

fn sort_opened(bits: &Vec<(usize, bool)>) -> (sorted: Vec<(usize, bool)>)
    ensures
        bit_views(sorted@) == sort_bits(bit_views(bits@)),
{
    let ghost all = bit_views(bits@);
    let mut sorted: Vec<(usize, bool)> = Vec::with_capacity(bits.len());
    assert(all.take(0).len() == 0);
    assert(bit_views(sorted@) =~= all.take(0));
    for i in 0..bits.len()
        invariant
            all == bit_views(bits@),
            sorted@.len() == i,
            bit_views(sorted@) == sort_bits(all.take(i as int)),
    {
        let x: (usize, bool) = bits[i];
        let ghost s = bit_views(sorted@);
        assert(all.take(i + 1).drop_last() =~= all.take(i as int));
        let mut p: usize = sorted.len();
        while p > 0 && sorted[p - 1].0 > x.0
            invariant
                p <= sorted@.len(),
                s == bit_views(sorted@),
                forall|j: int| p <= j < s.len() ==> (#[trigger] s[j]).0 > x.0,
            decreases p,
        {
            assert(s[p - 1].0 == sorted@[p - 1].0);
            p = p - 1;
        }
        proof {
            if p > 0 {
                assert(s[p - 1].0 == sorted@[p - 1].0);
            }
            lemma_insert_bit(s, (x.0 as nat, x.1), p as int);
        }
        let ghost before = sorted@;
        sorted.insert(p, x);
        assert(bit_views(sorted@) =~= s.insert(p as int, (x.0 as nat, x.1)));
    }
    assert(all.take(all.len() as int) =~= all);
    sorted
}

/// Whether each bit gadget decodes its bit.
fn gadget_kinds(gadgets: &Vec<Gadget>) -> (kinds: Vec<bool>)
    ensures
        kinds@.len() == bit_gadgets(gadget_views(gadgets@)),
        forall|k: int|
            0 <= k < kinds@.len() ==> #[trigger] kinds@[k] == decodes(
                gadget_views(gadgets@),
                k as nat,
            ),
{
    let ghost all = gadget_views(gadgets@);
    let mut kinds: Vec<bool> = Vec::new();
    assert(all.take(0).len() == 0);
    for i in 0..gadgets.len()
        invariant
            all == gadget_views(gadgets@),
            kinds@.len() == bit_gadgets(all.take(i as int)),
            forall|k: int|
                0 <= k < kinds@.len() ==> #[trigger] kinds@[k] == decodes(
                    all.take(i as int),
                    k as nat,
                ),
    {
        assert(all.take(i + 1).drop_last() =~= all.take(i as int));
        assert(all.take(i + 1).last() == gadgets@[i as int]@);
        match &gadgets[i] {
            Gadget::BitDecode { h0, h1, dropped } => {
                kinds.push(true);
            },
            Gadget::ExpectBit { h } => {
                kinds.push(false);
            },
            _ => {},
        }
    }
    assert(all.take(all.len() as int) =~= all);
    kinds
}

/// Group sorted bits into runs.
fn group_runs(gadgets: &Vec<Gadget>, bits: &Vec<(usize, bool)>) -> (runs: Vec<BitRun>)
    requires
        forall|i: int|
            0 <= i < bits@.len() ==> (#[trigger] bits@[i]).0 < bit_gadgets(gadget_views(gadgets@)),
    ensures
        run_views(runs@) == runs_of(gadget_views(gadgets@), bit_views(bits@)),
{
    let ghost gs = gadget_views(gadgets@);
    let ghost all = bit_views(bits@);
    let kinds: Vec<bool> = gadget_kinds(gadgets);
    let mut runs: Vec<BitRun> = Vec::new();
    assert(all.take(0).len() == 0);
    assert(run_views(runs@) =~= Seq::<RunView>::empty());
    for i in 0..bits.len()
        invariant
            gs == gadget_views(gadgets@),
            all == bit_views(bits@),
            kinds@.len() == bit_gadgets(gs),
            forall|k: int| 0 <= k < kinds@.len() ==> #[trigger] kinds@[k] == decodes(gs, k as nat),
            forall|j: int| 0 <= j < bits@.len() ==> (#[trigger] bits@[j]).0 < bit_gadgets(gs),
            run_views(runs@) == runs_of(gs, all.take(i as int)),
    {
        let ghost before = runs@;
        let ghost s = all.take(i + 1);
        assert(s.drop_last() =~= all.take(i as int));
        let (g, bit): (usize, bool) = bits[i];
        assert(bits@[i as int].0 < bit_gadgets(gs));
        let kind: bool = kinds[g];
        assert(s.last() == (g as nat, bit));
        let follows: bool = i > 0 && bits[i - 1].0 < usize::MAX && bits[i - 1].0 + 1 == g;
        assert(i > 0 ==> s[s.len() - 2].0 == bits@[i - 1].0);
        assert(follows == (s.len() >= 2 && s[s.len() - 2].0 + 1 == g));
        let n: usize = runs.len();
        assert(run_views(before).len() == n);
        if follows && n > 0 && runs[n - 1].decoded == kind {
            assert(run_views(before).last() == before[n - 1]@);
            let mut longer: Vec<bool> = vstd::slice::slice_to_vec(runs[n - 1].bits.as_slice());
            longer.push(bit);
            let run = BitRun { decoded: kind, bits: longer };
            runs[n - 1] = run;
            assert(run_views(runs@) =~= run_views(before).drop_last().push(run@));
        } else {
            assert(n > 0 ==> run_views(before).last() == before[n - 1]@);
            let mut single: Vec<bool> = Vec::new();
            single.push(bit);
            assert(single@ =~= seq![bit]);
            let run = BitRun { decoded: kind, bits: single };
            runs.push(run);
            assert(run_views(runs@) =~= run_views(before).push(run@));
        }
    }
    assert(all.take(all.len() as int) =~= all);
    runs
}

/// The number that bits write, most significant first.
pub open spec fn msb_value(bits: Seq<bool>) -> nat
    decreases bits.len(),
{
    if bits.len() == 0 {
        0
    } else {
        2 * msb_value(bits.drop_last()) + if bits.last() {
            1nat
        } else {
            0nat
        }
    }
}

/// Shifting a bit in modulo 2^64 forgets the top bit only.
proof fn lemma_shift_in(m: nat, b: nat)
    requires
        b <= 1,
    ensures
        (2 * m + b) % 0x1_0000_0000_0000_0000 == 2 * ((m % 0x1_0000_0000_0000_0000)
            % 0x8000_0000_0000_0000) + b,
{
    let w = 0x1_0000_0000_0000_0000int;
    let q = m as int / w;
    let r = m as int % w;
    let q2 = r / 0x8000_0000_0000_0000;
    let s = r % 0x8000_0000_0000_0000;
    assert(m == w * q + r);
    assert(2 * m + b == w * (2 * q + q2) + (2 * s + b));
    vstd::arithmetic::div_mod::lemma_fundamental_div_mod_converse(
        (2 * m + b) as int,
        w,
        2 * q + q2,
        2 * s + b,
    );
}

impl BitRun {
    /// The number that the run's bits write, modulo 2^64.
    pub fn value(&self) -> (v: u64)
        ensures
            v == msb_value(self.bits@) % 0x1_0000_0000_0000_0000,
    {
        let mut v: u64 = 0;
        assert(self.bits@.take(0).len() == 0);
        for i in 0..self.bits.len()
            invariant
                v == msb_value(self.bits@.take(i as int)) % 0x1_0000_0000_0000_0000,
        {
            assert(self.bits@.take(i + 1).drop_last() =~= self.bits@.take(i as int));
            let bit: u64 = if self.bits[i] {
                1
            } else {
                0
            };
            proof {
                lemma_shift_in(msb_value(self.bits@.take(i as int)), bit as nat);
            }
            let low: u64 = v % 0x8000_0000_0000_0000;
            v = low * 2 + bit;
        }
        assert(self.bits@.take(self.bits@.len() as int) =~= self.bits@);
        v
    }
}

// ----- the report -----

/// A script-path spend, decoded.
#[derive(Debug, PartialEq, Eq)]
pub struct ScriptSpend {
    pub leaf_len: usize,
    pub control_len: usize,
    /// The depth of the leaf in its tree.
    pub depth: usize,
    pub parsed: Parsed,
    /// The arguments in consumption order, the top of the stack first.
    pub args: Vec<Arg>,
    /// The opened bits, in runs of consecutive gadgets.
    pub runs: Vec<BitRun>,
}

/// What a witness says.
#[derive(Debug, PartialEq, Eq)]
pub enum WitnessReport {
    /// A single signature, in hexadecimal.
    KeyPath { signature: String },
    /// Elements that are no spend of either kind: length and hexadecimal.
    Raw { items: Vec<(usize, String)> },
    ScriptPath(ScriptSpend),
}

/// Whether a report is that of a script-path spend of `script`.
pub open spec fn reports_spend(
    spend: ScriptSpend,
    items: Seq<Seq<u8>>,
    script: Seq<u8>,
    control: Seq<u8>,
) -> bool {
    let gs = gadget_views(spend.parsed.gadgets@);
    let bs = block_views(spend.parsed.blocks@);
    let n = items.len() - 2;
    &&& spend.leaf_len == script.len()
    &&& spend.control_len == control.len()
    &&& spend.depth == (if control.len() < 33 {
        0
    } else {
        (control.len() - 33) / 32
    })
    &&& gs == gadgets_from(readable(parse_script(script)), 0)
    &&& bs == crate::decode::gadgets::blocks_of(gs)
    &&& arg_views(spend.args@) == args_of(gs, bs, items, n, n)
    &&& run_views(spend.runs@) == runs_of(gs, sort_bits(opened_bits(arg_views(spend.args@))))
}

/// The bits that arguments open belong to gadgets of the leaf.
proof fn lemma_opened_in_range(
    gadgets: Seq<GadgetView>,
    blocks: Seq<BlockView>,
    items: Seq<Seq<u8>>,
    n: int,
    k: int,
)
    requires
        0 <= k <= n,
    ensures
        forall|i: int|
            #![trigger opened_bits(args_of(gadgets, blocks, items, n, k))[i]]
            0 <= i < opened_bits(args_of(gadgets, blocks, items, n, k)).len() ==> opened_bits(
                args_of(gadgets, blocks, items, n, k),
            )[i].0 < bit_gadgets(gadgets),
    decreases k,
{
    let args = args_of(gadgets, blocks, items, n, k);
    if k > 0 {
        lemma_opened_in_range(gadgets, blocks, items, n, k - 1);
        assert(args.drop_last() =~= args_of(gadgets, blocks, items, n, k - 1));
        lemma_opened_bit_range(gadgets, hash160_spec(consumed(items, n, k - 1)));
        let before = opened_bits(args.drop_last());
        let out = opened_bits(args);
        assert forall|i: int| 0 <= i < out.len() implies (#[trigger] out[i]).0 < bit_gadgets(
            gadgets,
        ) by {
            if i < before.len() {
                assert(opened_bits(args_of(gadgets, blocks, items, n, k - 1))[i].0 < bit_gadgets(
                    gadgets,
                ));
            }
        }
    }
}

proof fn lemma_opened_bit_range(gadgets: Seq<GadgetView>, hash: Seq<u8>)
    ensures
        opened_bit(gadgets, hash) matches Some((k, bit)) ==> k < bit_gadgets(gadgets),
    decreases gadgets.len(),
{
    if gadgets.len() > 0 {
        lemma_opened_bit_range(gadgets.drop_last(), hash);
    }
}

proof fn lemma_sorted_in_range(s: Seq<(nat, bool)>, limit: nat)
    requires
        forall|i: int| 0 <= i < s.len() ==> (#[trigger] s[i]).0 < limit,
    ensures
        forall|i: int| 0 <= i < sort_bits(s).len() ==> (#[trigger] sort_bits(s)[i]).0 < limit,
    decreases s.len(),
{
    if s.len() > 0 {
        let rest = s.drop_last();
        assert forall|i: int| 0 <= i < rest.len() implies (#[trigger] rest[i]).0 < limit by {
            assert(s[i].0 < limit);
        }
        lemma_sorted_in_range(rest, limit);
        assert(s[s.len() - 1].0 < limit);
        lemma_inserted_in_range(sort_bits(rest), s.last(), limit);
    }
}

proof fn lemma_inserted_in_range(s: Seq<(nat, bool)>, x: (nat, bool), limit: nat)
    requires
        x.0 < limit,
        forall|i: int| 0 <= i < s.len() ==> (#[trigger] s[i]).0 < limit,
    ensures
        forall|i: int|
            0 <= i < insert_bit(s, x).len() ==> (#[trigger] insert_bit(s, x)[i]).0 < limit,
    decreases s.len(),
{
    if s.len() > 0 && s.last().0 > x.0 {
        let rest = s.drop_last();
        assert forall|i: int| 0 <= i < rest.len() implies (#[trigger] rest[i]).0 < limit by {
            assert(s[i].0 < limit);
        }
        lemma_inserted_in_range(rest, x, limit);
        assert(s[s.len() - 1].0 < limit);
        let inner = insert_bit(rest, x);
        let out = insert_bit(s, x);
        assert(out == inner.push(s.last()));
        assert forall|i: int| 0 <= i < out.len() implies (#[trigger] out[i]).0 < limit by {
            if i < inner.len() {
                assert(inner[i].0 < limit);
            }
        }
    } else {
        let out = insert_bit(s, x);
        assert(out == s.push(x));
        assert forall|i: int| 0 <= i < out.len() implies (#[trigger] out[i]).0 < limit by {
            if i < s.len() {
                assert(s[i].0 < limit);
            }
        }
    }
}

/// Decode a witness: a key-path signature, loose elements, or a script-path
/// spend with its leaf's gadgets, its arguments and the bits they open.
pub fn decode_witness(items: &Vec<Vec<u8>>) -> (report: WitnessReport)
    requires
        fits_witness(items_view(items@)),
    ensures
        match leaf_script(items_view(items@)) {
            Some(script) => {
                &&& report matches WitnessReport::ScriptPath(spend)
                &&& reports_spend(
                    spend,
                    items_view(items@),
                    script,
                    script_spend(items_view(items@)).unwrap().1,
                )
            },
            None => if items@.len() == 1 && items@[0]@.len() == 64 {
                report matches WitnessReport::KeyPath { signature } && signature@ == hex_text(
                    items@[0]@,
                )
            } else {
                &&& report matches WitnessReport::Raw { items: raw }
                &&& raw@.len() == items@.len()
                &&& forall|i: int|
                    0 <= i < raw@.len() ==> (#[trigger] raw@[i]).0 == items@[i]@.len()
                        && raw@[i].1@ == hex_text(items@[i]@)
            },
        },
{
    let ghost all = items_view(items@);
    let script: Vec<u8> = match taproot_leaf_script(items) {
        Some(script) => script,
        None => {
            if items.len() == 1 && items[0].len() == 64 {
                return WitnessReport::KeyPath { signature: hex_encode(items[0].as_slice()) };
            }
            let mut raw: Vec<(usize, String)> = Vec::with_capacity(items.len());
            for i in 0..items.len()
                invariant
                    raw@.len() == i,
                    forall|j: int|
                        0 <= j < i ==> (#[trigger] raw@[j]).0 == items@[j]@.len() && raw@[j].1@
                            == hex_text(items@[j]@),
            {
                raw.push((items[i].len(), hex_encode(items[i].as_slice())));
            }
            return WitnessReport::Raw { items: raw };
        },
    };
    let control: Vec<u8> = match taproot_control_block(items) {
        Some(control) => control,
        None => Vec::new(),
    };
    let n_args: usize = items.len() - 2;
    let parsed: Parsed = parse_gadgets(script.as_slice());
    let args: Vec<Arg> = read_args(&parsed, items, n_args);
    let bits: Vec<(usize, bool)> = collect_bits(&args);
    let sorted: Vec<(usize, bool)> = sort_opened(&bits);
    proof {
        let gs = gadget_views(parsed.gadgets@);
        let bs = block_views(parsed.blocks@);
        lemma_opened_in_range(gs, bs, all, n_args as int, n_args as int);
        lemma_sorted_in_range(bit_views(bits@), bit_gadgets(gs));
        assert forall|i: int| 0 <= i < sorted@.len() implies (#[trigger] sorted@[i]).0
            < bit_gadgets(gs) by {
            assert(bit_views(sorted@)[i].0 == sorted@[i].0);
        }
    }
    let runs: Vec<BitRun> = group_runs(&parsed.gadgets, &sorted);
    let depth: usize = if control.len() < 33 {
        0
    } else {
        (control.len() - 33) / 32
    };
    WitnessReport::ScriptPath(
        ScriptSpend {
            leaf_len: script.len(),
            control_len: control.len(),
            depth,
            parsed,
            args,
            runs,
        },
    )
}

} // verus!
