//! Directories: a flat sequence of fixed-size entries (inode id and NUL-padded name) kept
//! in the directory inode's data, scanned linearly. An entry with inode id zero is a free
//! slot.

use vstd::prelude::*;
use crate::codec::{get_u32, le_u32, put_u32, u32_le};
use crate::error::FsError;
use crate::file::{bytes_at, read_at, write_at, byte_at};
use crate::layout::{Str256, fits_field, padded, DIRENT_SIZE, MAX_FILE_SIZE};
use crate::log::Log;

verus! {

/// The text of a NUL-padded field: its bytes before the first zero.
pub open spec fn nul_text(f: Seq<u8>) -> Seq<u8>
    decreases f.len(),
{
    if f.len() == 0 || f[0] == 0 {
        Seq::empty()
    } else {
        seq![f[0]] + nul_text(f.drop_first())
    }
}

proof fn lemma_nul_text(f: Seq<u8>, n: int)
    requires
        0 <= n <= f.len(),
        forall|i: int| 0 <= i < n ==> f[i] != 0,
        n < f.len() ==> f[n] == 0,
    ensures
        nul_text(f) == f.subrange(0, n),
    decreases n,
{
    if n == 0 {
        assert(f.subrange(0, 0) =~= Seq::<u8>::empty());
    } else {
        lemma_nul_text(f.drop_first(), n - 1);
        assert(f.subrange(0, n) =~= seq![f[0]] + f.drop_first().subrange(0, n - 1));
    }
}

/// The bytes of entry slot `k` of directory `dir`.
pub open spec fn slot_bytes(log: Log, dir: int, k: int) -> Seq<u8> {
    bytes_at(log, dir, k * DIRENT_SIZE, DIRENT_SIZE as int)
}

/// Inode id held in entry slot `k`.
pub open spec fn slot_id(log: Log, dir: int, k: int) -> u32 {
    le_u32(slot_bytes(log, dir, k), 0)
}

/// Name held in entry slot `k`.
pub open spec fn slot_name(log: Log, dir: int, k: int) -> Seq<u8> {
    nul_text(slot_bytes(log, dir, k).subrange(4, DIRENT_SIZE as int))
}

/// The entries in use among the first `n` slots, in slot order: inode id and name.
pub open spec fn live_entries(log: Log, dir: int, n: int) -> Seq<(u32, Seq<u8>)>
    decreases n,
{
    if n <= 0 {
        Seq::empty()
    } else if slot_id(log, dir, n - 1) != 0 {
        live_entries(log, dir, n - 1).push((slot_id(log, dir, n - 1), slot_name(log, dir, n - 1)))
    } else {
        live_entries(log, dir, n - 1)
    }
}

/// The inode id and name in entry slot `k` of directory `dir`.
pub fn read_entry(log: &Log, dir: usize, k: usize) -> (r: (u32, Vec<u8>))
    requires
        log.wf(),
        k < 16519104,
    ensures
        r.0 == slot_id(*log, dir as int, k as int),
        r.1@ == slot_name(*log, dir as int, k as int),
{
    let b = read_at(log, dir, k * DIRENT_SIZE, DIRENT_SIZE);
    let id = get_u32(b.as_slice(), 0);
    let mut name: Vec<u8> = Vec::new();
    let mut i: usize = 4;
    while i < DIRENT_SIZE && b[i] != 0
        invariant
            b@.len() == DIRENT_SIZE,
            4 <= i <= DIRENT_SIZE,
            forall|q: int| 4 <= q < i ==> b@[q] != 0,
            name@ == b@.subrange(4, i as int),
        decreases DIRENT_SIZE - i,
    {
        name.push(b[i]);
        i = i + 1;
        assert(name@ =~= b@.subrange(4, i as int));
    }
    proof {
        let f = b@.subrange(4, 260);
        lemma_nul_text(f, i - 4);
        assert(f.subrange(0, i - 4) =~= b@.subrange(4, i as int));
    }
    (id, name)
}

/// The entries in use among the first `n` slots of directory `dir`, in slot order; free
/// slots (inode id zero) are skipped.
pub fn readdir(log: &Log, dir: usize, n: usize) -> (r: Vec<(u32, Vec<u8>)>)
    requires
        log.wf(),
        n <= 16519104,
    ensures
        r@.len() == live_entries(*log, dir as int, n as int).len(),
        forall|i: int| 0 <= i < r@.len() ==> (#[trigger] r@[i]).0 == live_entries(*log, dir as int, n as int)[i].0
            && r@[i].1@ == live_entries(*log, dir as int, n as int)[i].1,
{
    let mut r: Vec<(u32, Vec<u8>)> = Vec::new();
    let mut k: usize = 0;
    while k < n
        invariant
            log.wf(),
            n <= 16519104,
            k <= n,
            r@.len() == live_entries(*log, dir as int, k as int).len(),
            forall|i: int| 0 <= i < r@.len() ==> (#[trigger] r@[i]).0 == live_entries(*log, dir as int, k as int)[i].0
                && r@[i].1@ == live_entries(*log, dir as int, k as int)[i].1,
        decreases n - k,
    {
        let (id, name) = read_entry(log, dir, k);
        if id != 0 {
            r.push((id, name));
        }
        k = k + 1;
    }
    r
}

/// The bytes of an entry for inode `id` named `name`.
pub open spec fn entry_bytes(id: u32, name: Seq<u8>) -> Seq<u8> {
    u32_le(id) + padded(name, 256)
}

/// Writes an entry for inode `id` named `name` into slot `k` of directory `dir`.
/// `InvalidName` where the name is empty, longer than 255 bytes or holds a zero byte;
/// otherwise what `write_at` returns.
pub fn write_entry(log: &mut Log, dir: usize, k: usize, id: u32, name: &[u8]) -> (r: Result<(), FsError>)
    requires
        old(log).wf(),
        dir < old(log).n_inodes(),
        k < 16519104,
    ensures
        final(log).wf(),
        final(log).n_inodes() == old(log).n_inodes(),
        final(log).nseg() == old(log).nseg(),
        r matches Err(e) ==> e == FsError::InvalidName || e == FsError::OutOfSpace,
        r matches Err(e) && e == FsError::OutOfSpace ==> final(log).out_of_room(true),
        r matches Err(e) && e == FsError::InvalidName ==> *final(log) == *old(log),
        (r matches Err(e) && e == FsError::InvalidName) <==> (name@.len() == 0 || !fits_field(name@, 256)),
        r is Ok ==> slot_bytes(*final(log), dir as int, k as int) == entry_bytes(id, name@),
        r is Ok ==> forall|j: int| 0 <= j && j != k ==> #[trigger] slot_bytes(*final(log), dir as int, j)
            == slot_bytes(*old(log), dir as int, j),
        forall|j: int, l: int| j != dir ==> #[trigger] final(log).block(j, l) == old(log).block(j, l),
{
    if name.len() == 0 {
        return Err(FsError::InvalidName);
    }
    let field = match Str256::from_bytes(name) {
        Some(f) => f,
        None => {
            return Err(FsError::InvalidName);
        },
    };
    let mut b: Vec<u8> = Vec::new();
    put_u32(&mut b, id);
    let mut i: usize = 0;
    while i < 256
        invariant
            i <= 256,
            field.0@.len() == 256,
            b@ == u32_le(id) + field.0@.subrange(0, i as int),
        decreases 256 - i,
    {
        b.push(field.0[i]);
        i = i + 1;
        assert(b@ =~= u32_le(id) + field.0@.subrange(0, i as int));
    }
    assert(field.0@.subrange(0, 256) =~= field.0@);
    let off = k * DIRENT_SIZE;
    let ghost pre = *log;
    let res = write_at(log, dir, off, b.as_slice());
    match res {
        Ok(()) => {},
        Err(e) => {
            return Err(e);
        },
    }
    proof {
        assert(slot_bytes(*log, dir as int, k as int) =~= entry_bytes(id, name@));
        lemma_other_slots(pre, *log, dir as int, k as int);
    }
    Ok(())
}

/// Whether two byte strings are equal.
fn bytes_eq(a: &[u8], b: &[u8]) -> (r: bool)
    ensures
        r == (a@ == b@),
{
    if a.len() != b.len() {
        return false;
    }
    let mut i: usize = 0;
    while i < a.len()
        invariant
            a@.len() == b@.len(),
            i <= a@.len(),
            forall|q: int| 0 <= q < i ==> a@[q] == b@[q],
        decreases a@.len() - i,
    {
        if a[i] != b[i] {
            return false;
        }
        i = i + 1;
    }
    assert(a@ =~= b@);
    true
}

/// Slot of the entry named `name` among the first `n` slots of directory `dir`, if any.
pub fn find_entry(log: &Log, dir: usize, n: usize, name: &[u8]) -> (r: Option<usize>)
    requires
        log.wf(),
        n <= 16519104,
    ensures
        r matches Some(k) ==> k < n && slot_id(*log, dir as int, k as int) != 0 && slot_name(
            *log,
            dir as int,
            k as int,
        ) == name@,
        r is None ==> forall|k: int| 0 <= k < n ==> slot_id(*log, dir as int, k) == 0 || #[trigger] slot_name(
            *log,
            dir as int,
            k,
        ) != name@,
{
    let mut k: usize = 0;
    while k < n
        invariant
            log.wf(),
            n <= 16519104,
            k <= n,
            forall|j: int| 0 <= j < k ==> slot_id(*log, dir as int, j) == 0 || #[trigger] slot_name(
                *log,
                dir as int,
                j,
            ) != name@,
        decreases n - k,
    {
        let (id, text) = read_entry(log, dir, k);
        if id != 0 && bytes_eq(text.as_slice(), name) {
            return Some(k);
        }
        k = k + 1;
    }
    None
}

/// Adds an entry for inode `id` named `name` after the first `n` slots of directory `dir`,
/// and returns the new number of slots. `EntryExist` where a live entry has that name
/// already, `InvalidName` where the name cannot be stored, `OutOfSpace` where the log is
/// full.
pub fn add_entry(log: &mut Log, dir: usize, n: usize, id: u32, name: &[u8]) -> (r: Result<usize, FsError>)
    requires
        old(log).wf(),
        dir < old(log).n_inodes(),
        n < 16519104,
        id != 0,
    ensures
        final(log).wf(),
        final(log).n_inodes() == old(log).n_inodes(),
        final(log).nseg() == old(log).nseg(),
        forall|j: int, l: int| j != dir ==> #[trigger] final(log).block(j, l) == old(log).block(j, l),
        r matches Err(e) ==> e == FsError::EntryExist || e == FsError::InvalidName || e == FsError::OutOfSpace,
        r matches Err(e) && e == FsError::OutOfSpace ==> final(log).out_of_room(true),
        (r matches Err(e) && e == FsError::EntryExist) <==> exists|k: int|
            0 <= k < n && slot_id(*old(log), dir as int, k) != 0 && #[trigger] slot_name(*old(log), dir as int, k)
                == name@,
        r matches Err(e) && e != FsError::OutOfSpace ==> *final(log) == *old(log),
        r matches Err(e) && e == FsError::InvalidName ==> name@.len() == 0 || !fits_field(name@, 256),
        r matches Ok(m) ==> m == n + 1 && live_entries(*final(log), dir as int, m as int) == live_entries(
            *old(log),
            dir as int,
            n as int,
        ).push((id, name@)),
{
    if find_entry(log, dir, n, name).is_some() {
        return Err(FsError::EntryExist);
    }
    let ghost pre = *log;
    write_entry(log, dir, n, id, name)?;
    proof {
        lemma_u32_in_entry(id, name@);
        lemma_live_entries_frame(pre, *log, dir as int, n as int);
        let f = slot_bytes(*log, dir as int, n as int).subrange(4, DIRENT_SIZE as int);
        assert(f =~= padded(name@, 256));
        lemma_nul_text(f, name@.len() as int);
        assert(f.subrange(0, name@.len() as int) =~= name@);
    }
    Ok(n + 1)
}

pub(crate) proof fn lemma_u32_in_entry(id: u32, name: Seq<u8>)
    requires
        name.len() <= 256,
    ensures
        le_u32(entry_bytes(id, name), 0) == id,
{
    crate::codec::lemma_u32_round_trip(id);
    let e = entry_bytes(id, name);
    assert(e[0] == u32_le(id)[0]);
    assert(e[1] == u32_le(id)[1]);
    assert(e[2] == u32_le(id)[2]);
    assert(e[3] == u32_le(id)[3]);
}

proof fn lemma_live_entries_frame(a: Log, b: Log, dir: int, n: int)
    requires
        forall|j: int| 0 <= j < n ==> #[trigger] slot_bytes(b, dir, j) == slot_bytes(a, dir, j),
    ensures
        live_entries(b, dir, n) == live_entries(a, dir, n),
    decreases n,
{
    if n > 0 {
        assert(slot_bytes(b, dir, n - 1) == slot_bytes(a, dir, n - 1));
        lemma_live_entries_frame(a, b, dir, n - 1);
    }
}

/// Where no block of directory `dir` changed, neither did its entries.
pub(crate) proof fn lemma_inode_frame(a: Log, b: Log, dir: int, n: int)
    requires
        forall|l: int| #[trigger] b.block(dir, l) == a.block(dir, l),
    ensures
        live_entries(b, dir, n) == live_entries(a, dir, n),
{
    assert forall|j: int| 0 <= j < n implies #[trigger] slot_bytes(b, dir, j) == slot_bytes(a, dir, j) by {
        assert(slot_bytes(b, dir, j) =~= slot_bytes(a, dir, j));
    }
    lemma_live_entries_frame(a, b, dir, n);
}

/// Where no block of directory `dir` changed, neither did its slot `k`.
pub(crate) proof fn lemma_slot_frame(a: Log, b: Log, dir: int, k: int, other: int)
    requires
        other != dir,
        forall|j: int, l: int| j != other ==> #[trigger] b.block(j, l) == a.block(j, l),
    ensures
        slot_bytes(b, dir, k) == slot_bytes(a, dir, k),
{
    assert(slot_bytes(b, dir, k) =~= slot_bytes(a, dir, k));
}

/// Where no block of directory `dir` changed, neither did its slot `k`.
pub(crate) proof fn lemma_block_frame(a: Log, b: Log, dir: int, k: int)
    requires
        forall|l: int| #[trigger] b.block(dir, l) == a.block(dir, l),
    ensures
        slot_bytes(b, dir, k) == slot_bytes(a, dir, k),
{
    assert(slot_bytes(b, dir, k) =~= slot_bytes(a, dir, k));
}

/// Frees entry slot `k` of directory `dir`: its inode id becomes zero, so that scans skip
/// it. `OutOfSpace` where the log is full.
pub fn free_entry(log: &mut Log, dir: usize, k: usize) -> (r: Result<(), FsError>)
    requires
        old(log).wf(),
        dir < old(log).n_inodes(),
        k < 16519104,
    ensures
        final(log).wf(),
        final(log).n_inodes() == old(log).n_inodes(),
        final(log).nseg() == old(log).nseg(),
        r matches Err(e) ==> e == FsError::OutOfSpace,
        r matches Err(e) && e == FsError::OutOfSpace ==> final(log).out_of_room(true),
        r is Ok ==> slot_id(*final(log), dir as int, k as int) == 0,
        r is Ok ==> forall|j: int| 0 <= j && j != k ==> #[trigger] slot_bytes(*final(log), dir as int, j)
            == slot_bytes(*old(log), dir as int, j),
        forall|j: int, l: int| j != dir ==> #[trigger] final(log).block(j, l) == old(log).block(j, l),
{
    let mut b: Vec<u8> = Vec::new();
    b.push(0);
    b.push(0);
    b.push(0);
    b.push(0);
    let off = k * DIRENT_SIZE;
    let ghost pre = *log;
    let res = write_at(log, dir, off, b.as_slice());
    match res {
        Ok(()) => {},
        Err(e) => {
            return Err(e);
        },
    }
    proof {
        let sb = slot_bytes(*log, dir as int, k as int);
        assert(byte_at(*log, dir as int, off as int) == 0);
        assert(byte_at(*log, dir as int, off + 1) == 0);
        assert(byte_at(*log, dir as int, off + 2) == 0);
        assert(byte_at(*log, dir as int, off + 3) == 0);
        assert(sb[0] == 0 && sb[1] == 0 && sb[2] == 0 && sb[3] == 0);
        lemma_le_u32_zero(sb);
        lemma_other_slots(pre, *log, dir as int, k as int);
    }
    Ok(())
}

proof fn lemma_le_u32_zero(b: Seq<u8>)
    requires
        b.len() >= 4,
        b[0] == 0 && b[1] == 0 && b[2] == 0 && b[3] == 0,
    ensures
        le_u32(b, 0) == 0,
{
    let b0 = b[0];
    let b1 = b[1];
    let b2 = b[2];
    let b3 = b[3];
    assert((b0 as u32) | ((b1 as u32) << 8u32) | ((b2 as u32) << 16u32) | ((b3 as u32) << 24u32) == 0) by (bit_vector)
        requires
            b0 == 0 && b1 == 0 && b2 == 0 && b3 == 0,
    ;
}

/// A write within slot `k` leaves every other slot as it was.
proof fn lemma_other_slots(pre: Log, post: Log, dir: int, k: int)
    requires
        0 <= k,
        forall|i: int| 0 <= i && !(k * DIRENT_SIZE <= i < k * DIRENT_SIZE + DIRENT_SIZE) ==> #[trigger] byte_at(post, dir, i)
            == byte_at(pre, dir, i),
    ensures
        forall|j: int| 0 <= j && j != k ==> #[trigger] slot_bytes(post, dir, j) == slot_bytes(pre, dir, j),
{
    assert forall|j: int| 0 <= j && j != k implies #[trigger] slot_bytes(post, dir, j) == slot_bytes(pre, dir, j) by {
        assert forall|q: int| 0 <= q < DIRENT_SIZE implies #[trigger] slot_bytes(post, dir, j)[q]
            == slot_bytes(pre, dir, j)[q] by {
            if j < k {
                assert(j * 260 + q < k * 260) by (nonlinear_arith)
                    requires
                        0 <= j < k,
                        0 <= q < 260,
                ;
            } else {
                assert(j * 260 + q >= k * 260 + 260) by (nonlinear_arith)
                    requires
                        j > k,
                        0 <= q,
                ;
            }
            assert(j * 260 + q >= 0) by (nonlinear_arith)
                requires
                    j >= 0,
                    q >= 0,
            ;
        }
        assert(slot_bytes(post, dir, j) =~= slot_bytes(pre, dir, j));
    }
}

} // verus!
