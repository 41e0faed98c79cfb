//! Compiling instructions into a legacy message: the account keys in their
//! four signer/writable groups, the header that counts them, and each
//! instruction with its accounts given by key index.
use vstd::prelude::*;
use crate::account::{Account, AccountMetaView, AccountView, Instruction, InstructionView, instructions_view};
use crate::ids::{INSTRUCTIONS_SYSVAR_ID, SYSVAR_PROGRAM_ID};
use crate::pubkey::Pubkey;
use solana_instruction::{BorrowedAccountMeta, BorrowedInstruction};
use solana_pubkey::Pubkey as Address;

verus! {

/// A key with the strongest role any instruction gives it.
pub struct KeyMeta {
    pub pubkey: Pubkey,
    pub is_signer: bool,
    pub is_writable: bool,
}

/// The mathematical value of a key and its role.
pub type KeyRole = (Seq<u8>, bool, bool);

impl View for KeyMeta {
    type V = KeyRole;

    open spec fn view(&self) -> KeyRole {
        (self.pubkey@, self.is_signer, self.is_writable)
    }
}

/// The views of a sequence of key metas.
pub open spec fn key_metas_view(v: Seq<KeyMeta>) -> Seq<KeyRole> {
    v.map_values(|m: KeyMeta| m@)
}

/// The keys an instruction names, in order, with the roles it gives them:
/// the program (no role), then each account meta.
pub open spec fn instruction_roles(ix: InstructionView) -> Seq<KeyRole> {
    seq![(ix.program_id, false, false)] + ix.accounts.map_values(
        |m: crate::account::AccountMetaView| (m.pubkey, m.is_signer, m.is_writable),
    )
}

/// The keys a list of instructions names, in order, with their roles.
pub open spec fn all_roles(ixs: Seq<InstructionView>) -> Seq<KeyRole>
    decreases ixs.len(),
{
    if ixs.len() == 0 {
        Seq::empty()
    } else {
        all_roles(ixs.drop_last()) + instruction_roles(ixs.last())
    }
}

/// Whether some entry of `m` is for key `k`.
pub open spec fn has_key(m: Seq<KeyRole>, k: Seq<u8>) -> bool {
    exists|i: int| 0 <= i < m.len() && m[i].0 == k
}

/// Whether no two entries of `m` are for the same key.
pub open spec fn keys_distinct(m: Seq<KeyRole>) -> bool {
    forall|i: int, j: int| 0 <= i < j < m.len() ==> #[trigger] m[i].0 != #[trigger] m[j].0
}

/// Records one use of a key: a known key gains the roles of this use, a new
/// key is appended with them.
pub open spec fn record_role(m: Seq<KeyRole>, e: KeyRole) -> Seq<KeyRole> {
    if has_key(m, e.0) {
        let i = choose|i: int| 0 <= i < m.len() && m[i].0 == e.0;
        m.update(i, (e.0, m[i].1 || e.1, m[i].2 || e.2))
    } else {
        m.push(e)
    }
}

/// The distinct keys of a sequence of uses, in order of first use, each with
/// every role any use gives it.
pub open spec fn collect_roles(es: Seq<KeyRole>) -> Seq<KeyRole>
    decreases es.len(),
{
    if es.len() == 0 {
        Seq::empty()
    } else {
        record_role(collect_roles(es.drop_last()), es.last())
    }
}

/// The keys of `m` with the given roles, in order.
pub open spec fn bucket(m: Seq<KeyRole>, signer: bool, writable: bool) -> Seq<Seq<u8>>
    decreases m.len(),
{
    if m.len() == 0 {
        Seq::empty()
    } else {
        let b = bucket(m.drop_last(), signer, writable);
        if m.last().1 == signer && m.last().2 == writable {
            b.push(m.last().0)
        } else {
            b
        }
    }
}

/// The keys of a message compiled from `ixs`: writable signers, read-only
/// signers, writable non-signers, read-only non-signers.
pub open spec fn message_keys(ixs: Seq<InstructionView>) -> Seq<Seq<u8>> {
    let m = collect_roles(all_roles(ixs));
    bucket(m, true, true) + bucket(m, true, false) + bucket(m, false, true) + bucket(m, false, false)
}

/// The first index of `k` in `keys`.
pub open spec fn key_index(keys: Seq<Seq<u8>>, k: Seq<u8>) -> int {
    choose|i: int| 0 <= i < keys.len() && keys[i] == k && forall|j: int| 0 <= j < i ==> keys[j] != k
}

/// The header of a legacy message.
#[derive(Clone, Copy, Debug, PartialEq, Eq, Structural)]
pub struct MessageHeader {
    pub num_required_signatures: u8,
    pub num_readonly_signed_accounts: u8,
    pub num_readonly_unsigned_accounts: u8,
}

/// An instruction of a message: the program and accounts by key index.
pub struct CompiledInstruction {
    pub program_id_index: u8,
    pub accounts: Vec<u8>,
    pub data: Vec<u8>,
}

/// The mathematical value of a compiled instruction.
pub struct CompiledInstructionView {
    pub program_id_index: u8,
    pub accounts: Seq<u8>,
    pub data: Seq<u8>,
}

impl View for CompiledInstruction {
    type V = CompiledInstructionView;

    open spec fn view(&self) -> CompiledInstructionView {
        CompiledInstructionView { program_id_index: self.program_id_index, accounts: self.accounts@, data: self.data@ }
    }
}

/// A legacy message: header, keys and compiled instructions.
pub struct CompiledMessage {
    pub header: MessageHeader,
    pub account_keys: Vec<Pubkey>,
    pub instructions: Vec<CompiledInstruction>,
}

/// The views of a list of keys.
pub open spec fn keys_view(v: Seq<Pubkey>) -> Seq<Seq<u8>> {
    v.map_values(|k: Pubkey| k@)
}

/// The instruction `ix` compiled against `keys`. Indices are kept to their
/// low eight bits, as a message stores them.
pub open spec fn compile_instruction_spec(keys: Seq<Seq<u8>>, ix: InstructionView) -> CompiledInstructionView {
    CompiledInstructionView {
        program_id_index: key_index(keys, ix.program_id) as u8,
        accounts: ix.accounts.map_values(|m: crate::account::AccountMetaView| key_index(keys, m.pubkey) as u8),
        data: ix.data,
    }
}

/// The header of the message compiled from `ixs`; counts are kept to their
/// low eight bits.
pub open spec fn message_header(ixs: Seq<InstructionView>) -> MessageHeader {
    let m = collect_roles(all_roles(ixs));
    MessageHeader {
        num_required_signatures: (bucket(m, true, true).len() + bucket(m, true, false).len()) as u8,
        num_readonly_signed_accounts: bucket(m, true, false).len() as u8,
        num_readonly_unsigned_accounts: bucket(m, false, false).len() as u8,
    }
}

// ---------------------------------------------------------------------------
// Laws of key collection
// ---------------------------------------------------------------------------

/// Recording a use keeps keys distinct, keeps every key, and adds the used key.
proof fn lemma_record_role(m: Seq<KeyRole>, e: KeyRole)
    requires
        keys_distinct(m),
    ensures
        keys_distinct(record_role(m, e)),
        has_key(record_role(m, e), e.0),
        forall|k: Seq<u8>| has_key(m, k) ==> has_key(record_role(m, e), k),
        forall|k: Seq<u8>| #[trigger] has_key(record_role(m, e), k) ==> has_key(m, k) || k == e.0,
{
    let r = record_role(m, e);
    if has_key(m, e.0) {
        let i = choose|i: int| 0 <= i < m.len() && m[i].0 == e.0;
        assert(r[i].0 == e.0);
        assert forall|k: Seq<u8>| has_key(m, k) implies has_key(r, k) by {
            let j = choose|j: int| 0 <= j < m.len() && m[j].0 == k;
            assert(r[j].0 == k);
        }
        assert forall|k: Seq<u8>| #[trigger] has_key(r, k) implies has_key(m, k) || k == e.0 by {
            let j = choose|j: int| 0 <= j < r.len() && r[j].0 == k;
            assert(m[j].0 == k);
        }
    } else {
        assert(r[m.len() as int].0 == e.0);
        assert forall|k: Seq<u8>| has_key(m, k) implies has_key(r, k) by {
            let j = choose|j: int| 0 <= j < m.len() && m[j].0 == k;
            assert(r[j].0 == k);
        }
        assert forall|k: Seq<u8>| #[trigger] has_key(r, k) implies has_key(m, k) || k == e.0 by {
            let j = choose|j: int| 0 <= j < r.len() && r[j].0 == k;
            if j < m.len() {
                assert(m[j].0 == k);
            }
        }
    }
}

/// The collected keys are distinct and are exactly the keys used.
pub proof fn law_collect_roles_keys(es: Seq<KeyRole>)
    ensures
        keys_distinct(collect_roles(es)),
        forall|i: int| 0 <= i < es.len() ==> has_key(collect_roles(es), #[trigger] es[i].0),
        forall|k: Seq<u8>| #[trigger] has_key(collect_roles(es), k) ==> exists|i: int| 0 <= i < es.len() && es[i].0 == k,
    decreases es.len(),
{
    if es.len() > 0 {
        let init = es.drop_last();
        law_collect_roles_keys(init);
        lemma_record_role(collect_roles(init), es.last());
        assert forall|i: int| 0 <= i < es.len() implies has_key(collect_roles(es), #[trigger] es[i].0) by {
            if i < es.len() - 1 {
                assert(init[i] == es[i]);
            }
        }
        assert forall|k: Seq<u8>| #[trigger] has_key(collect_roles(es), k) implies exists|i: int| 0 <= i < es.len() && es[i].0 == k by {
            if has_key(collect_roles(init), k) {
                let i = choose|i: int| 0 <= i < init.len() && init[i].0 == k;
                assert(es[i].0 == k);
            } else {
                assert(es[es.len() - 1].0 == k);
            }
        }
    }
}

/// The signer buckets together hold no more keys than there are.
proof fn lemma_bucket_lens(m: Seq<KeyRole>)
    ensures
        bucket(m, true, true).len() + bucket(m, true, false).len() <= m.len(),
        bucket(m, false, false).len() <= m.len(),
    decreases m.len(),
{
    if m.len() > 0 {
        lemma_bucket_lens(m.drop_last());
    }
}

/// A key of `m` with the given roles is in their bucket.
proof fn lemma_bucket_contains(m: Seq<KeyRole>, i: int)
    requires
        0 <= i < m.len(),
    ensures
        bucket(m, m[i].1, m[i].2).contains(m[i].0),
    decreases m.len(),
{
    let b = bucket(m, m[i].1, m[i].2);
    if i == m.len() - 1 {
        assert(b.last() == m[i].0);
    } else {
        lemma_bucket_contains(m.drop_last(), i);
        let b0 = bucket(m.drop_last(), m[i].1, m[i].2);
        let j = choose|j: int| 0 <= j < b0.len() && b0[j] == m[i].0;
        assert(b[j] == m[i].0);
    }
}

/// Every key that the instructions name is among the message keys.
pub proof fn law_message_keys_complete(ixs: Seq<InstructionView>, k: Seq<u8>)
    requires
        has_key(all_roles(ixs), k),
    ensures
        message_keys(ixs).contains(k),
{
    let es = all_roles(ixs);
    let m = collect_roles(es);
    law_collect_roles_keys(es);
    let i0 = choose|i: int| 0 <= i < es.len() && es[i].0 == k;
    assert(has_key(m, es[i0].0));
    let i = choose|i: int| 0 <= i < m.len() && m[i].0 == k;
    lemma_bucket_contains(m, i);
    let ws = bucket(m, true, true);
    let rs = bucket(m, true, false);
    let wn = bucket(m, false, true);
    let rn = bucket(m, false, false);
    let keys = message_keys(ixs);
    assert(keys == ws + rs + wn + rn);
    if m[i].1 && m[i].2 {
        let j = choose|j: int| 0 <= j < ws.len() && ws[j] == k;
        assert(keys[j] == k);
    } else if m[i].1 && !m[i].2 {
        let j = choose|j: int| 0 <= j < rs.len() && rs[j] == k;
        assert(keys[ws.len() + j] == k);
    } else if !m[i].1 && m[i].2 {
        let j = choose|j: int| 0 <= j < wn.len() && wn[j] == k;
        assert(keys[ws.len() + rs.len() + j] == k);
    } else {
        let j = choose|j: int| 0 <= j < rn.len() && rn[j] == k;
        assert(keys[ws.len() + rs.len() + wn.len() + j] == k);
    }
}

/// The keys an instruction names are among the keys of the list it is in.
proof fn lemma_roles_of_member(ixs: Seq<InstructionView>, i: int, j: int)
    requires
        0 <= i < ixs.len(),
        0 <= j < instruction_roles(ixs[i]).len(),
    ensures
        has_key(all_roles(ixs), instruction_roles(ixs[i])[j].0),
    decreases ixs.len(),
{
    let init = ixs.drop_last();
    let a = all_roles(init);
    let r = all_roles(ixs);
    if i == ixs.len() - 1 {
        assert(r[a.len() + j] == instruction_roles(ixs[i])[j]);
    } else {
        assert(init[i] == ixs[i]);
        lemma_roles_of_member(init, i, j);
        let t = choose|t: int| 0 <= t < a.len() && a[t].0 == instruction_roles(ixs[i])[j].0;
        assert(r[t] == a[t]);
    }
}

/// Whether some use in `es` of key `k` makes it a signer.
pub open spec fn some_use_signs(es: Seq<KeyRole>, k: Seq<u8>) -> bool {
    exists|i: int| 0 <= i < es.len() && (#[trigger] es[i]).0 == k && es[i].1
}

/// Whether some use in `es` of key `k` makes it writable.
pub open spec fn some_use_writes(es: Seq<KeyRole>, k: Seq<u8>) -> bool {
    exists|i: int| 0 <= i < es.len() && (#[trigger] es[i]).0 == k && es[i].2
}

/// Whether some account meta of the instructions for `k` is a signer.
pub open spec fn some_meta_signs(ixs: Seq<InstructionView>, k: Seq<u8>) -> bool {
    exists|i: int, j: int|
        0 <= i < ixs.len() && 0 <= j < ixs[i].accounts.len() && (#[trigger] ixs[i].accounts[j]).pubkey == k
            && ixs[i].accounts[j].is_signer
}

/// Whether some account meta of the instructions for `k` is writable.
pub open spec fn some_meta_writes(ixs: Seq<InstructionView>, k: Seq<u8>) -> bool {
    exists|i: int, j: int|
        0 <= i < ixs.len() && 0 <= j < ixs[i].accounts.len() && (#[trigger] ixs[i].accounts[j]).pubkey == k
            && ixs[i].accounts[j].is_writable
}

/// Uses of a key split between the earlier ones and the last.
proof fn lemma_some_use_last(es: Seq<KeyRole>, k: Seq<u8>)
    requires
        es.len() > 0,
    ensures
        some_use_signs(es, k) == (some_use_signs(es.drop_last(), k) || (es.last().0 == k && es.last().1)),
        some_use_writes(es, k) == (some_use_writes(es.drop_last(), k) || (es.last().0 == k && es.last().2)),
{
    let init = es.drop_last();
    if some_use_signs(es, k) {
        let i = choose|i: int| 0 <= i < es.len() && (#[trigger] es[i]).0 == k && es[i].1;
        if i < init.len() {
            assert(init[i] == es[i]);
        }
    }
    if some_use_signs(init, k) {
        let i = choose|i: int| 0 <= i < init.len() && (#[trigger] init[i]).0 == k && init[i].1;
        assert(es[i] == init[i]);
    }
    if es.last().0 == k && es.last().1 {
        assert(es[es.len() - 1] == es.last());
    }
    if some_use_writes(es, k) {
        let i = choose|i: int| 0 <= i < es.len() && (#[trigger] es[i]).0 == k && es[i].2;
        if i < init.len() {
            assert(init[i] == es[i]);
        }
    }
    if some_use_writes(init, k) {
        let i = choose|i: int| 0 <= i < init.len() && (#[trigger] init[i]).0 == k && init[i].2;
        assert(es[i] == init[i]);
    }
    if es.last().0 == k && es.last().2 {
        assert(es[es.len() - 1] == es.last());
    }
}

/// Each collected key holds a role exactly when some use of it gives that role.
proof fn lemma_collect_roles_flags(es: Seq<KeyRole>, idx: int)
    requires
        0 <= idx < collect_roles(es).len(),
    ensures
        collect_roles(es)[idx].1 == some_use_signs(es, collect_roles(es)[idx].0),
        collect_roles(es)[idx].2 == some_use_writes(es, collect_roles(es)[idx].0),
    decreases es.len(),
{
    let init = es.drop_last();
    let e = es.last();
    let m0 = collect_roles(init);
    let m = collect_roles(es);
    law_collect_roles_keys(init);
    let k = m[idx].0;
    lemma_some_use_last(es, k);
    if has_key(m0, e.0) {
        let i0 = choose|i: int| 0 <= i < m0.len() && m0[i].0 == e.0;
        assert(m == m0.update(i0, (e.0, m0[i0].1 || e.1, m0[i0].2 || e.2)));
        lemma_collect_roles_flags(init, i0);
        if idx != i0 {
            lemma_collect_roles_flags(init, idx);
            assert(m0[idx].0 != m0[i0].0);
        }
    } else {
        assert(m == m0.push(e));
        if idx < m0.len() {
            lemma_collect_roles_flags(init, idx);
            assert(m0[idx].0 != e.0);
        } else {
            assert(!some_use_signs(init, e.0)) by {
                if some_use_signs(init, e.0) {
                    let i = choose|i: int| 0 <= i < init.len() && (#[trigger] init[i]).0 == e.0 && init[i].1;
                    assert(has_key(m0, init[i].0));
                }
            }
            assert(!some_use_writes(init, e.0)) by {
                if some_use_writes(init, e.0) {
                    let i = choose|i: int| 0 <= i < init.len() && (#[trigger] init[i]).0 == e.0 && init[i].2;
                    assert(has_key(m0, init[i].0));
                }
            }
        }
    }
}

/// The roles the uses of a key give it are those its account metas give it:
/// a program id, as such, has none.
proof fn lemma_all_roles_flags(ixs: Seq<InstructionView>, k: Seq<u8>)
    ensures
        some_use_signs(all_roles(ixs), k) == some_meta_signs(ixs, k),
        some_use_writes(all_roles(ixs), k) == some_meta_writes(ixs, k),
    decreases ixs.len(),
{
    if ixs.len() > 0 {
        let init = ixs.drop_last();
        let last = ixs.last();
        let a = all_roles(init);
        let r = instruction_roles(last);
        let es = all_roles(ixs);
        lemma_all_roles_flags(init, k);
        assert(es == a + r);
        assert forall|q: int| 0 <= q < init.len() implies init[q] == #[trigger] ixs[q] by {}
        // signers
        if some_use_signs(es, k) {
            let i = choose|i: int| 0 <= i < es.len() && (#[trigger] es[i]).0 == k && es[i].1;
            if i < a.len() {
                assert(a[i] == es[i]);
                let (p, q) = choose|p: int, q: int|
                    0 <= p < init.len() && 0 <= q < init[p].accounts.len() && (#[trigger] init[p].accounts[q]).pubkey == k
                        && init[p].accounts[q].is_signer;
                assert(ixs[p].accounts[q] == init[p].accounts[q]);
            } else {
                let q = i - a.len() - 1;
                assert(r[i - a.len()] == es[i]);
                assert(i - a.len() > 0);
                assert(ixs[ixs.len() - 1].accounts[q] == last.accounts[q]);
            }
        }
        if some_meta_signs(ixs, k) {
            let (p, q) = choose|p: int, q: int|
                0 <= p < ixs.len() && 0 <= q < ixs[p].accounts.len() && (#[trigger] ixs[p].accounts[q]).pubkey == k
                    && ixs[p].accounts[q].is_signer;
            if p < init.len() {
                assert(init[p].accounts[q] == ixs[p].accounts[q]);
                let i = choose|i: int| 0 <= i < a.len() && (#[trigger] a[i]).0 == k && a[i].1;
                assert(es[i] == a[i]);
            } else {
                assert(es[a.len() + 1 + q] == r[1 + q]);
            }
        }
        // writable
        if some_use_writes(es, k) {
            let i = choose|i: int| 0 <= i < es.len() && (#[trigger] es[i]).0 == k && es[i].2;
            if i < a.len() {
                assert(a[i] == es[i]);
                let (p, q) = choose|p: int, q: int|
                    0 <= p < init.len() && 0 <= q < init[p].accounts.len() && (#[trigger] init[p].accounts[q]).pubkey == k
                        && init[p].accounts[q].is_writable;
                assert(ixs[p].accounts[q] == init[p].accounts[q]);
            } else {
                let q = i - a.len() - 1;
                assert(r[i - a.len()] == es[i]);
                assert(i - a.len() > 0);
                assert(ixs[ixs.len() - 1].accounts[q] == last.accounts[q]);
            }
        }
        if some_meta_writes(ixs, k) {
            let (p, q) = choose|p: int, q: int|
                0 <= p < ixs.len() && 0 <= q < ixs[p].accounts.len() && (#[trigger] ixs[p].accounts[q]).pubkey == k
                    && ixs[p].accounts[q].is_writable;
            if p < init.len() {
                assert(init[p].accounts[q] == ixs[p].accounts[q]);
                let i = choose|i: int| 0 <= i < a.len() && (#[trigger] a[i]).0 == k && a[i].2;
                assert(es[i] == a[i]);
            } else {
                assert(es[a.len() + 1 + q] == r[1 + q]);
            }
        }
    }
}

/// Every key in a bucket is a key of `m` with the bucket's roles.
proof fn lemma_bucket_member(m: Seq<KeyRole>, signer: bool, writable: bool, q: int)
    requires
        0 <= q < bucket(m, signer, writable).len(),
    ensures
        exists|i: int| 0 <= i < m.len() && (#[trigger] m[i]).0 == bucket(m, signer, writable)[q] && m[i].1 == signer
            && m[i].2 == writable,
    decreases m.len(),
{
    let init = m.drop_last();
    let b0 = bucket(init, signer, writable);
    if q < b0.len() {
        lemma_bucket_member(init, signer, writable, q);
        let i = choose|i: int| 0 <= i < init.len() && (#[trigger] init[i]).0 == b0[q] && init[i].1 == signer && init[i].2 == writable;
        assert(m[i] == init[i]);
    } else {
        assert(m[m.len() - 1] == m.last());
    }
}

/// In the compiled message a key stands among the signers exactly when some
/// account meta for it is a signer, and among the writable keys exactly when
/// some account meta for it is writable. Per the header, the first
/// `num_required_signatures` keys sign, and a key is writable unless it is
/// one of the last `num_readonly_signed_accounts` signers or one of the last
/// `num_readonly_unsigned_accounts` keys.
pub proof fn law_message_key_roles(ixs: Seq<InstructionView>, p: int)
    requires
        legacy_message_fits(ixs),
        0 <= p < message_keys(ixs).len(),
    ensures
        (p < message_header(ixs).num_required_signatures) == some_meta_signs(ixs, message_keys(ixs)[p]),
        (p < message_header(ixs).num_required_signatures - message_header(ixs).num_readonly_signed_accounts || (
        message_header(ixs).num_required_signatures <= p < message_keys(ixs).len()
            - message_header(ixs).num_readonly_unsigned_accounts)) == some_meta_writes(ixs, message_keys(ixs)[p]),
{
    let es = all_roles(ixs);
    let m = collect_roles(es);
    let ws = bucket(m, true, true);
    let rs = bucket(m, true, false);
    let wn = bucket(m, false, true);
    let rn = bucket(m, false, false);
    let keys = message_keys(ixs);
    let k = keys[p];
    assert(keys == ws + rs + wn + rn);
    let (s, w, q) = if p < ws.len() {
        (true, true, p)
    } else if p < ws.len() + rs.len() {
        (true, false, p - ws.len())
    } else if p < ws.len() + rs.len() + wn.len() {
        (false, true, p - ws.len() - rs.len())
    } else {
        (false, false, p - ws.len() - rs.len() - wn.len())
    };
    assert(bucket(m, s, w)[q] == k);
    lemma_bucket_member(m, s, w, q);
    let i = choose|i: int| 0 <= i < m.len() && (#[trigger] m[i]).0 == bucket(m, s, w)[q] && m[i].1 == s && m[i].2 == w;
    lemma_collect_roles_flags(es, i);
    lemma_all_roles_flags(ixs, k);
}

// ---------------------------------------------------------------------------
// Compilation
// ---------------------------------------------------------------------------

/// The index of the entry for `pubkey`, if any.
fn find_key_meta(metas: &Vec<KeyMeta>, pubkey: &Pubkey) -> (r: Option<usize>)
    ensures
        r matches Some(i) ==> i < metas@.len() && metas@[i as int].pubkey@ == pubkey@,
        r is None ==> !has_key(key_metas_view(metas@), pubkey@),
{
    let mut i: usize = 0;
    while i < metas.len()
        invariant
            i <= metas@.len(),
            forall|j: int| 0 <= j < i ==> #[trigger] metas@[j].pubkey@ != pubkey@,
        decreases metas@.len() - i,
    {
        if metas[i].pubkey == *pubkey {
            return Some(i);
        }
        i = i + 1;
    }
    proof {
        if has_key(key_metas_view(metas@), pubkey@) {
            let j = choose|j: int| 0 <= j < metas@.len() && key_metas_view(metas@)[j].0 == pubkey@;
            assert(metas@[j].pubkey@ != pubkey@);
        }
    }
    None
}

/// Records a use of `pubkey` with the given roles.
fn key_meta_find_or_insert(metas: &mut Vec<KeyMeta>, pubkey: &Pubkey, is_signer: bool, is_writable: bool)
    requires
        keys_distinct(key_metas_view(old(metas)@)),
    ensures
        key_metas_view(final(metas)@) == record_role(key_metas_view(old(metas)@), (pubkey@, is_signer, is_writable)),
        keys_distinct(key_metas_view(final(metas)@)),
{
    let ghost m = key_metas_view(metas@);
    proof {
        lemma_record_role(m, (pubkey@, is_signer, is_writable));
    }
    match find_key_meta(metas, pubkey) {
        Some(i) => {
            let s = metas[i].is_signer || is_signer;
            let w = metas[i].is_writable || is_writable;
            metas.set(i, KeyMeta { pubkey: *pubkey, is_signer: s, is_writable: w });
            proof {
                assert(m[i as int].0 == pubkey@);
                let c = choose|c: int| 0 <= c < m.len() && m[c].0 == pubkey@;
                if c != i {
                    if c < i {
                        assert(m[c].0 != m[i as int].0);
                    } else {
                        assert(m[i as int].0 != m[c].0);
                    }
                }
                assert(key_metas_view(metas@) =~= record_role(m, (pubkey@, is_signer, is_writable)));
            }
        },
        None => {
            metas.push(KeyMeta { pubkey: *pubkey, is_signer, is_writable });
            proof {
                assert(key_metas_view(metas@) =~= record_role(m, (pubkey@, is_signer, is_writable)));
            }
        },
    }
}

/// The first index of `k` among `keys`, if there.
fn find_key(keys: &Vec<Pubkey>, k: &Pubkey) -> (r: Option<usize>)
    ensures
        r matches Some(i) ==> i == key_index(keys_view(keys@), k@) && i < keys@.len() && keys@[i as int]@ == k@,
        r is None ==> !keys_view(keys@).contains(k@),
{
    let ghost kv = keys_view(keys@);
    let mut i: usize = 0;
    while i < keys.len()
        invariant
            i <= keys@.len(),
            kv == keys_view(keys@),
            forall|j: int| 0 <= j < i ==> kv[j] != k@,
        decreases keys@.len() - i,
    {
        if keys[i] == *k {
            proof {
                let c = key_index(kv, k@);
                assert(kv[i as int] == k@);
                assert(0 <= c < kv.len() && kv[c] == k@ && forall|j: int| 0 <= j < c ==> kv[j] != k@);
                if c < i {
                    assert(kv[c] != k@);
                } else if c > i {
                    assert(kv[i as int] != k@);
                }
            }
            return Some(i);
        }
        i = i + 1;
    }
    proof {
        if kv.contains(k@) {
            let j = choose|j: int| 0 <= j < kv.len() && kv[j] == k@;
            assert(kv[j] != k@);
        }
    }
    None
}

/// Every key the instructions name, once, in order of first use, with every
/// role any use gives it.
pub fn collect_key_metas(instructions: &Vec<Instruction>) -> (r: Vec<KeyMeta>)
    ensures
        key_metas_view(r@) == collect_roles(all_roles(instructions_view(instructions@))),
        keys_distinct(key_metas_view(r@)),
{
    let ghost ixs = instructions_view(instructions@);
    let mut key_metas: Vec<KeyMeta> = Vec::new();
    let mut i: usize = 0;
    while i < instructions.len()
        invariant
            i <= instructions@.len(),
            ixs == instructions_view(instructions@),
            keys_distinct(key_metas_view(key_metas@)),
            key_metas_view(key_metas@) == collect_roles(all_roles(ixs.take(i as int))),
        decreases instructions@.len() - i,
    {
        let ix = &instructions[i];
        let ghost before = all_roles(ixs.take(i as int));
        let ghost roles = instruction_roles(ixs[i as int]);
        proof {
            assert(ixs.take(i + 1).drop_last() =~= ixs.take(i as int));
            assert(all_roles(ixs.take(i + 1)) == before + roles);
            assert((before + roles.take(1)).drop_last() =~= before);
        }
        key_meta_find_or_insert(&mut key_metas, &ix.program_id, false, false);
        proof {
            assert(roles[0] == (ix.program_id@, false, false));
        }
        let mut j: usize = 0;
        while j < ix.accounts.len()
            invariant
                j <= ix.accounts@.len(),
                ixs == instructions_view(instructions@),
                i < instructions@.len(),
                ix == &instructions@[i as int],
                roles == instruction_roles(ixs[i as int]),
                roles.len() == ix.accounts@.len() + 1,
                keys_distinct(key_metas_view(key_metas@)),
                key_metas_view(key_metas@) == collect_roles(before + roles.take(j + 1)),
            decreases ix.accounts@.len() - j,
        {
            let meta = &ix.accounts[j];
            proof {
                assert((before + roles.take(j + 2)).drop_last() =~= before + roles.take(j + 1));
                assert(roles[j + 1] == (meta.pubkey@, meta.is_signer, meta.is_writable));
                assert((before + roles.take(j + 2)).last() == roles[j + 1]);
            }
            key_meta_find_or_insert(&mut key_metas, &meta.pubkey, meta.is_signer, meta.is_writable);
            j = j + 1;
        }
        proof {
            assert(roles.take(j + 1) =~= roles);
            assert(all_roles(ixs.take(i + 1)) =~= before + roles);
        }
        i = i + 1;
    }
    proof {
        assert(ixs.take(instructions@.len() as int) =~= ixs);
    }
    key_metas
}

/// Whether the message compiled from `ixs` can count its signers and
/// read-only keys in a byte each.
pub open spec fn legacy_message_fits(ixs: Seq<InstructionView>) -> bool {
    let m = collect_roles(all_roles(ixs));
    &&& bucket(m, true, true).len() + bucket(m, true, false).len() <= 255
    &&& bucket(m, false, false).len() <= 255
}

/// Whether the message compiled from these instructions can count its
/// signers and read-only keys in a byte each.
pub fn message_fits(instructions: &Vec<Instruction>) -> (r: bool)
    ensures
        r == legacy_message_fits(instructions_view(instructions@)),
{
    let metas = collect_key_metas(instructions);
    let ghost m = key_metas_view(metas@);
    let mut signers: usize = 0;
    let mut readonly_signers: usize = 0;
    let mut readonly_unsigned: usize = 0;
    let mut k: usize = 0;
    while k < metas.len()
        invariant
            k <= metas@.len(),
            m == key_metas_view(metas@),
            signers == bucket(m.take(k as int), true, true).len() + bucket(m.take(k as int), true, false).len(),
            readonly_signers == bucket(m.take(k as int), true, false).len(),
            readonly_unsigned == bucket(m.take(k as int), false, false).len(),
            signers <= k,
            readonly_unsigned <= k,
        decreases metas@.len() - k,
    {
        proof {
            assert(m.take(k + 1).drop_last() =~= m.take(k as int));
            assert(m.take(k + 1).last() == m[k as int]);
        }
        if metas[k].is_signer {
            signers = signers + 1;
            if !metas[k].is_writable {
                readonly_signers = readonly_signers + 1;
            }
        } else if !metas[k].is_writable {
            readonly_unsigned = readonly_unsigned + 1;
        }
        k = k + 1;
    }
    proof {
        assert(m.take(metas@.len() as int) =~= m);
    }
    signers <= 255 && readonly_unsigned <= 255
}

/// Compiles instructions into a legacy message: every key the instructions
/// name, once, in order of first use, grouped as writable signers, read-only
/// signers, writable non-signers and read-only non-signers; the header that
/// counts them; and each instruction by key index.
pub fn compile_message(instructions: &Vec<Instruction>) -> (r: CompiledMessage)
    ensures
        keys_view(r.account_keys@) == message_keys(instructions_view(instructions@)),
        r.header == message_header(instructions_view(instructions@)),
        r.instructions@.len() == instructions@.len(),
        forall|i: int| 0 <= i < instructions@.len() ==> (#[trigger] r.instructions@[i])@ == compile_instruction_spec(
            message_keys(instructions_view(instructions@)),
            instructions@[i]@,
        ),
{
    let ghost ixs = instructions_view(instructions@);
    let key_metas = collect_key_metas(instructions);
    let ghost m = collect_roles(all_roles(ixs));
    let mut writable_signers: Vec<Pubkey> = Vec::new();
    let mut readonly_signers: Vec<Pubkey> = Vec::new();
    let mut writable_non_signers: Vec<Pubkey> = Vec::new();
    let mut readonly_non_signers: Vec<Pubkey> = Vec::new();
    let mut k: usize = 0;
    while k < key_metas.len()
        invariant
            k <= key_metas@.len(),
            m == key_metas_view(key_metas@),
            keys_view(writable_signers@) == bucket(m.take(k as int), true, true),
            keys_view(readonly_signers@) == bucket(m.take(k as int), true, false),
            keys_view(writable_non_signers@) == bucket(m.take(k as int), false, true),
            keys_view(readonly_non_signers@) == bucket(m.take(k as int), false, false),
        decreases key_metas@.len() - k,
    {
        let km = &key_metas[k];
        proof {
            assert(m.take(k + 1).drop_last() =~= m.take(k as int));
            assert(m.take(k + 1).last() == (km.pubkey@, km.is_signer, km.is_writable));
        }
        if km.is_signer && km.is_writable {
            writable_signers.push(km.pubkey);
        } else if km.is_signer {
            readonly_signers.push(km.pubkey);
        } else if km.is_writable {
            writable_non_signers.push(km.pubkey);
        } else {
            readonly_non_signers.push(km.pubkey);
        }
        proof {
            assert(keys_view(writable_signers@) =~= bucket(m.take(k + 1), true, true));
            assert(keys_view(readonly_signers@) =~= bucket(m.take(k + 1), true, false));
            assert(keys_view(writable_non_signers@) =~= bucket(m.take(k + 1), false, true));
            assert(keys_view(readonly_non_signers@) =~= bucket(m.take(k + 1), false, false));
        }
        k = k + 1;
    }
    proof {
        assert(m.take(key_metas@.len() as int) =~= m);
    }
    proof {
        lemma_bucket_lens(m);
    }
    let nws = writable_signers.len();
    let nrs = readonly_signers.len();
    let nrn = readonly_non_signers.len();
    let header = MessageHeader {
        num_required_signatures: (nws + nrs) as u8,
        num_readonly_signed_accounts: nrs as u8,
        num_readonly_unsigned_accounts: nrn as u8,
    };
    let mut account_keys: Vec<Pubkey> = Vec::new();
    append_keys(&mut account_keys, &writable_signers);
    append_keys(&mut account_keys, &readonly_signers);
    append_keys(&mut account_keys, &writable_non_signers);
    append_keys(&mut account_keys, &readonly_non_signers);
    let ghost keys = message_keys(ixs);
    proof {
        assert(keys_view(account_keys@) =~= keys);
    }
    let mut compiled: Vec<CompiledInstruction> = Vec::new();
    let mut t: usize = 0;
    while t < instructions.len()
        invariant
            t <= instructions@.len(),
            ixs == instructions_view(instructions@),
            keys == message_keys(ixs),
            keys_view(account_keys@) == keys,
            compiled@.len() == t,
            forall|u: int| 0 <= u < t ==> (#[trigger] compiled@[u])@ == compile_instruction_spec(keys, instructions@[u]@),
        decreases instructions@.len() - t,
    {
        let ix = &instructions[t];
        proof {
            assert(ixs[t as int] == ix@);
            lemma_roles_of_member(ixs, t as int, 0);
            assert(instruction_roles(ix@)[0].0 == ix.program_id@);
            law_message_keys_complete(ixs, ix.program_id@);
            assert forall|j: int| 0 <= j < ix.accounts@.len() implies keys.contains(#[trigger] ix.accounts@[j].pubkey@) by {
                lemma_roles_of_member(ixs, t as int, j + 1);
                assert(instruction_roles(ix@)[j + 1].0 == ix.accounts@[j].pubkey@);
                law_message_keys_complete(ixs, ix.accounts@[j].pubkey@);
            }
        }
        compiled.push(compile_one(&account_keys, ix));
        t = t + 1;
    }
    CompiledMessage { header, account_keys, instructions: compiled }
}

/// One instruction compiled against `account_keys`, which hold every key it names.
fn compile_one(account_keys: &Vec<Pubkey>, ix: &Instruction) -> (r: CompiledInstruction)
    requires
        keys_view(account_keys@).contains(ix.program_id@),
        forall|j: int| 0 <= j < ix.accounts@.len() ==> keys_view(account_keys@).contains(#[trigger] ix.accounts@[j].pubkey@),
    ensures
        r@ == compile_instruction_spec(keys_view(account_keys@), ix@),
{
    let ghost keys = keys_view(account_keys@);
    let program_id_index = match find_key(account_keys, &ix.program_id) {
        Some(p) => p as u8,
        None => 0u8,
    };
    let mut accts: Vec<u8> = Vec::new();
    let mut j: usize = 0;
    while j < ix.accounts.len()
        invariant
            j <= ix.accounts@.len(),
            keys == keys_view(account_keys@),
            forall|q: int| 0 <= q < ix.accounts@.len() ==> keys.contains(#[trigger] ix.accounts@[q].pubkey@),
            accts@ == ix@.accounts.take(j as int).map_values(
                |m: crate::account::AccountMetaView| key_index(keys, m.pubkey) as u8,
            ),
        decreases ix.accounts@.len() - j,
    {
        let pk = &ix.accounts[j].pubkey;
        let idx = match find_key(account_keys, pk) {
            Some(p) => p as u8,
            None => 0u8,
        };
        accts.push(idx);
        proof {
            assert(ix@.accounts[j as int].pubkey == pk@);
            assert(accts@ =~= ix@.accounts.take(j + 1).map_values(
                |m: crate::account::AccountMetaView| key_index(keys, m.pubkey) as u8,
            ));
        }
        j = j + 1;
    }
    proof {
        assert(ix@.accounts.take(ix.accounts@.len() as int) =~= ix@.accounts);
    }
    let data = crate::account::copy_bytes(&ix.data);
    CompiledInstruction { program_id_index, accounts: accts, data }
}

/// Appends the keys of `src` to `dst`.
fn append_keys(dst: &mut Vec<Pubkey>, src: &Vec<Pubkey>)
    ensures
        keys_view(final(dst)@) == keys_view(old(dst)@) + keys_view(src@),
{
    let mut i: usize = 0;
    while i < src.len()
        invariant
            i <= src@.len(),
            keys_view(dst@) == keys_view(old(dst)@) + keys_view(src@.take(i as int)),
        decreases src@.len() - i,
    {
        let ghost before = dst@;
        dst.push(src[i]);
        proof {
            assert(src@.take(i + 1) =~= src@.take(i as int).push(src@[i as int]));
            assert(keys_view(src@.take(i + 1)) =~= keys_view(src@.take(i as int)).push(src@[i as int]@));
            assert(keys_view(dst@) =~= keys_view(before).push(src@[i as int]@));
            assert(keys_view(dst@) =~= keys_view(old(dst)@) + keys_view(src@.take(i + 1)));
        }
        i = i + 1;
    }
    proof {
        assert(src@.take(src@.len() as int) =~= src@);
    }
}

/// The keys of `s` without repeats, each where it first occurs.
pub open spec fn dedup_keys(s: Seq<Seq<u8>>) -> Seq<Seq<u8>>
    decreases s.len(),
{
    if s.len() == 0 {
        Seq::empty()
    } else {
        let d = dedup_keys(s.drop_last());
        if d.contains(s.last()) {
            d
        } else {
            d.push(s.last())
        }
    }
}

/// The program ids of the instructions, in order.
pub open spec fn program_ids_of(ixs: Seq<InstructionView>) -> Seq<Seq<u8>> {
    ixs.map_values(|ix: InstructionView| ix.program_id)
}

/// Whether some instruction runs the program at `k`.
pub open spec fn names_program(ixs: Seq<Instruction>, k: Seq<u8>) -> bool {
    exists|j: int| 0 <= j < ixs.len() && ixs[j].program_id@ == k
}

/// The distinct program ids of the instructions, in order of first use.
pub fn collect_program_ids(instructions: &Vec<Instruction>) -> (r: Vec<Pubkey>)
    ensures
        keys_view(r@) == dedup_keys(program_ids_of(instructions_view(instructions@))),
        forall|i: int, j: int| 0 <= i < j < r@.len() ==> #[trigger] r@[i]@ != #[trigger] r@[j]@,
        forall|i: int| 0 <= i < instructions@.len() ==> keys_view(r@).contains(#[trigger] instructions@[i].program_id@),
        forall|i: int| 0 <= i < r@.len() ==> names_program(instructions@, #[trigger] r@[i]@),
{
    let mut ids: Vec<Pubkey> = Vec::new();
    let ghost mut origin: Seq<int> = Seq::empty();
    let mut i: usize = 0;
    while i < instructions.len()
        invariant
            i <= instructions@.len(),
            forall|a: int, b: int| 0 <= a < b < ids@.len() ==> #[trigger] ids@[a]@ != #[trigger] ids@[b]@,
            forall|a: int| 0 <= a < i ==> keys_view(ids@).contains(#[trigger] instructions@[a].program_id@),
            origin.len() == ids@.len(),
            forall|a: int| 0 <= a < ids@.len() ==> 0 <= #[trigger] origin[a] < i && instructions@[origin[a]].program_id@ == ids@[a]@,
            keys_view(ids@) == dedup_keys(program_ids_of(instructions_view(instructions@).take(i as int))),
        decreases instructions@.len() - i,
    {
        let pid = instructions[i].program_id;
        let ghost before = ids@;
        proof {
            let pv = program_ids_of(instructions_view(instructions@).take(i + 1));
            assert(pv.drop_last() =~= program_ids_of(instructions_view(instructions@).take(i as int)));
            assert(pv.last() == pid@);
        }
        match find_key(&ids, &pid) {
            Some(p) => {
                proof {
                    assert(keys_view(ids@)[p as int] == pid@);
                }
            },
            None => {
                ids.push(pid);
                proof {
                    origin = origin.push(i as int);
                    assert forall|a: int| 0 <= a < i implies keys_view(ids@).contains(#[trigger] instructions@[a].program_id@) by {
                        let c = choose|c: int| 0 <= c < keys_view(before).len() && keys_view(before)[c] == instructions@[a].program_id@;
                        assert(keys_view(ids@)[c] == instructions@[a].program_id@);
                    }
                    assert(keys_view(ids@)[before.len() as int] == pid@);
                    assert forall|a: int, b: int| 0 <= a < b < ids@.len() implies #[trigger] ids@[a]@ != #[trigger] ids@[b]@ by {
                        if b == before.len() {
                            assert(keys_view(before)[a] == ids@[a]@);
                        }
                    }
                    assert(keys_view(ids@) =~= keys_view(before).push(pid@));
                }
            },
        }
        proof {
            assert(keys_view(ids@).contains(pid@));
        }
        i = i + 1;
    }
    proof {
        assert(instructions_view(instructions@).take(instructions@.len() as int) =~= instructions_view(instructions@));
        assert forall|a: int| 0 <= a < ids@.len() implies names_program(instructions@, #[trigger] ids@[a]@) by {
            let j = origin[a];
            assert(instructions@[j].program_id@ == ids@[a]@);
        }
    }
    ids
}

// ---------------------------------------------------------------------------
// The instructions sysvar
// ---------------------------------------------------------------------------

/// The two little-endian bytes of the low 16 bits of `x`.
pub open spec fn u16_bytes(x: nat) -> Seq<u8> {
    seq![(x % 256) as u8, ((x / 256) % 256) as u8]
}

/// An account meta in the instructions sysvar: a flag byte (1 for a signer,
/// plus 2 for a writable account), then the address.
pub open spec fn sysvar_meta_bytes(m: AccountMetaView) -> Seq<u8> {
    seq![((if m.is_signer { 1u8 } else { 0u8 }) + (if m.is_writable { 2u8 } else { 0u8 })) as u8] + m.pubkey
}

/// A sequence of account metas in the instructions sysvar.
pub open spec fn sysvar_metas_bytes(ms: Seq<AccountMetaView>) -> Seq<u8>
    decreases ms.len(),
{
    if ms.len() == 0 {
        Seq::empty()
    } else {
        sysvar_metas_bytes(ms.drop_last()) + sysvar_meta_bytes(ms.last())
    }
}

/// An instruction in the instructions sysvar: the number of accounts, the
/// accounts, the program id, the data length, the data (counts as `u16`).
pub open spec fn sysvar_instruction_bytes(ix: InstructionView) -> Seq<u8> {
    u16_bytes(ix.accounts.len()) + sysvar_metas_bytes(ix.accounts) + ix.program_id + u16_bytes(ix.data.len())
        + ix.data
}

/// The instructions in the instructions sysvar, one after the other.
pub open spec fn sysvar_instruction_list_bytes(ixs: Seq<InstructionView>) -> Seq<u8>
    decreases ixs.len(),
{
    if ixs.len() == 0 {
        Seq::empty()
    } else {
        sysvar_instruction_list_bytes(ixs.drop_last()) + sysvar_instruction_bytes(ixs.last())
    }
}

/// The offsets of the instructions `ixs` in a sysvar for `n` instructions:
/// each where it starts, after the header of `2 + 2 * n` bytes and the
/// instructions before it (as a `u16`).
pub open spec fn sysvar_offsets(ixs: Seq<InstructionView>, n: nat) -> Seq<u8>
    decreases ixs.len(),
{
    if ixs.len() == 0 {
        Seq::empty()
    } else {
        sysvar_offsets(ixs.drop_last(), n) + u16_bytes(
            2 + 2 * n + sysvar_instruction_list_bytes(ixs.drop_last()).len(),
        )
    }
}

/// The data that `solana_instructions_sysvar::construct_instructions_data`
/// builds for these instructions: the number of instructions, the offset of
/// each, the instructions, and two zero bytes for the index of the current
/// instruction.
pub open spec fn spec_instructions_sysvar_data(ixs: Seq<InstructionView>) -> Seq<u8> {
    u16_bytes(ixs.len()) + sysvar_offsets(ixs, ixs.len()) + sysvar_instruction_list_bytes(ixs) + seq![0u8, 0u8]
}

/// Calls `solana_instructions_sysvar::construct_instructions_data`, whose
/// result `spec_instructions_sysvar_data` writes out.
#[verifier::external_body]
fn instructions_sysvar_data(instructions: &Vec<Instruction>) -> (r: Vec<u8>)
    ensures
        r@ == spec_instructions_sysvar_data(instructions_view(instructions@)),
{
    let keys: Vec<(Address, Vec<Address>)> = instructions.iter().map(|ix| (Address::new_from_array(ix.program_id.bytes), ix.accounts.iter().map(|m| Address::new_from_array(m.pubkey.bytes)).collect())).collect();
    let borrowed: Vec<BorrowedInstruction> = instructions.iter().zip(&keys).map(|(ix, (pid, metas))| BorrowedInstruction {
        program_id: pid,
        accounts: ix.accounts.iter().zip(metas).map(|(m, k)| BorrowedAccountMeta { pubkey: k, is_signer: m.is_signer, is_writable: m.is_writable }).collect(),
        data: &ix.data,
    }).collect();
    solana_instructions_sysvar::construct_instructions_data(&borrowed)
}

/// The instructions sysvar account for these instructions: their serialized
/// form, no lamports, owned by the sysvar program.
pub open spec fn instructions_sysvar_account(ixs: Seq<InstructionView>) -> AccountView {
    AccountView {
        address: INSTRUCTIONS_SYSVAR_ID@,
        lamports: 0,
        data: spec_instructions_sysvar_data(ixs),
        owner: SYSVAR_PROGRAM_ID@,
        executable: false,
    }
}

/// Builds the instructions sysvar account for these instructions.
pub fn build_instructions_sysvar(instructions: &Vec<Instruction>) -> (r: Account)
    ensures
        r@ == instructions_sysvar_account(instructions_view(instructions@)),
{
    Account {
        address: Pubkey::new_from_array(INSTRUCTIONS_SYSVAR_ID),
        lamports: 0,
        data: instructions_sysvar_data(instructions),
        owner: Pubkey::new_from_array(SYSVAR_PROGRAM_ID),
        executable: false,
    }
}

/// Whether some account in `accounts` is at `key`.
pub open spec fn has_account(accounts: Seq<AccountView>, key: Seq<u8>) -> bool {
    exists|i: int| 0 <= i < accounts.len() && accounts[i].address == key
}

/// Builds the instructions sysvar account unless the accounts already hold one.
pub fn maybe_build_instructions_sysvar(instructions: &Vec<Instruction>, accounts: &Vec<Account>) -> (r: Option<Account>)
    ensures
        has_account(crate::account::accounts_view(accounts@), INSTRUCTIONS_SYSVAR_ID@) ==> r is None,
        !has_account(crate::account::accounts_view(accounts@), INSTRUCTIONS_SYSVAR_ID@) ==> (r matches Some(a)
            && a@ == instructions_sysvar_account(instructions_view(instructions@))),
{
    let id = Pubkey::new_from_array(INSTRUCTIONS_SYSVAR_ID);
    let mut i: usize = 0;
    while i < accounts.len()
        invariant
            i <= accounts@.len(),
            id@ == INSTRUCTIONS_SYSVAR_ID@,
            forall|j: int| 0 <= j < i ==> #[trigger] accounts@[j].address@ != INSTRUCTIONS_SYSVAR_ID@,
        decreases accounts@.len() - i,
    {
        if accounts[i].address == id {
            proof {
                assert(crate::account::accounts_view(accounts@)[i as int].address == INSTRUCTIONS_SYSVAR_ID@);
            }
            return None;
        }
        i = i + 1;
    }
    proof {
        if has_account(crate::account::accounts_view(accounts@), INSTRUCTIONS_SYSVAR_ID@) {
            let j = choose|j: int| 0 <= j < accounts@.len() && crate::account::accounts_view(accounts@)[j].address == INSTRUCTIONS_SYSVAR_ID@;
            assert(accounts@[j].address@ != INSTRUCTIONS_SYSVAR_ID@);
        }
    }
    Some(build_instructions_sysvar(instructions))
}

} // verus!
