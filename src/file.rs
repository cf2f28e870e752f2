//! Byte-level reads and writes of an inode's content over the log, block by block,
//! copy-on-write.

use vstd::prelude::*;
use crate::error::FsError;
use crate::layout::{BLKSIZE, MAX_FILE_SIZE};
use crate::log::{Log, DATA_BLKS};

verus! {

/// Byte `i` of inode `ino`'s content: a byte of the block that holds it, zero in a hole.
pub open spec fn byte_at(log: Log, ino: int, i: int) -> u8 {
    match log.block(ino, i / (BLKSIZE as int)) {
        Some(b) => b[i % (BLKSIZE as int)],
        None => 0,
    }
}

/// Bytes `off .. off + n` of inode `ino`'s content.
pub open spec fn bytes_at(log: Log, ino: int, off: int, n: int) -> Seq<u8> {
    Seq::new(n as nat, |k: int| byte_at(log, ino, off + k))
}

proof fn lemma_div_block(i: int, b: int, o: int)
    requires
        0 <= o < 4096,
        i == b * 4096 + o,
    ensures
        i / 4096 == b,
        i % 4096 == o,
{
    assert(i / 4096 == b && i % 4096 == o) by (nonlinear_arith)
        requires
            0 <= o < 4096,
            i == b * 4096 + o,
    ;
}

proof fn lemma_div_parts(i: int)
    requires
        0 <= i,
    ensures
        i == (i / 4096) * 4096 + i % 4096,
        0 <= i % 4096 < 4096,
        0 <= i / 4096,
{
}

/// A block of zeros.
fn zero_block() -> (r: Vec<u8>)
    ensures
        r@.len() == BLKSIZE,
        forall|q: int| 0 <= q < BLKSIZE ==> #[trigger] r@[q] == 0,
{
    let mut r: Vec<u8> = Vec::new();
    let mut i: usize = 0;
    while i < BLKSIZE
        invariant
            i <= BLKSIZE,
            r@.len() == i,
            forall|q: int| 0 <= q < i ==> #[trigger] r@[q] == 0,
        decreases BLKSIZE - i,
    {
        r.push(0);
        i = i + 1;
    }
    r
}

/// Reads `n` bytes of inode `ino` from byte `off`; holes read as zeros.
pub fn read_at(log: &Log, ino: usize, off: usize, n: usize) -> (r: Vec<u8>)
    requires
        log.wf(),
        off + n <= usize::MAX,
    ensures
        r@ == bytes_at(*log, ino as int, off as int, n as int),
{
    let mut r: Vec<u8> = Vec::new();
    let mut done: usize = 0;
    while done < n
        invariant
            log.wf(),
            off + n <= usize::MAX,
            done <= n,
            r@ == bytes_at(*log, ino as int, off as int, done as int),
        decreases n - done,
    {
        let pos = off + done;
        let b = pos / BLKSIZE;
        let o = pos % BLKSIZE;
        let room = BLKSIZE - o;
        let m = if n - done < room { n - done } else { room };
        let blk = log.read_block(ino, b);
        let mut t: usize = 0;
        while t < m
            invariant
                log.wf(),
                off + n <= usize::MAX,
                pos == off + done,
                b == pos / 4096,
                o == pos % 4096,
                m <= 4096 - o,
                done + m <= n,
                t <= m,
                blk is None <==> log.block(ino as int, b as int) is None,
                blk matches Some(v) ==> log.block(ino as int, b as int) == Some(v@) && v@.len() == 4096,
                r@ == bytes_at(*log, ino as int, off as int, (done + t) as int),
            decreases m - t,
        {
            let x: u8 = match &blk {
                Some(v) => v[o + t],
                None => 0,
            };
            proof {
                lemma_div_parts(pos as int);
                lemma_div_block(pos + t, b as int, o + t);
            }
            r.push(x);
            t = t + 1;
            assert(r@ =~= bytes_at(*log, ino as int, off as int, (done + t) as int));
        }
        done = done + m;
    }
    r
}

/// Writes `buf` into inode `ino` from byte `off`, block by block, each block copy-on-write
/// through the log. `FileTooLarge` where the write would reach past the 32-bit size field;
/// `OutOfSpace` where the log runs out of room, after the blocks written so far.
pub fn write_at(log: &mut Log, ino: usize, off: usize, buf: &[u8]) -> (r: Result<(), FsError>)
    requires
        old(log).wf(),
        ino < old(log).n_inodes(),
    ensures
        final(log).wf(),
        final(log).n_inodes() == old(log).n_inodes(),
        final(log).nseg() == old(log).nseg(),
        forall|j: int, l: int| j != ino ==> #[trigger] final(log).block(j, l) == old(log).block(j, l),
        (r matches Err(e) && e == FsError::FileTooLarge) <==> off + buf@.len() > MAX_FILE_SIZE,
        r matches Err(e) ==> e == FsError::FileTooLarge || e == FsError::OutOfSpace,
        r matches Err(e) && e == FsError::FileTooLarge ==> *final(log) == *old(log),
        r matches Err(e) && e == FsError::OutOfSpace ==> final(log).out_of_room(true),
        r is Ok ==> forall|i: int|
            0 <= i ==> #[trigger] byte_at(*final(log), ino as int, i) == if off <= i < off + buf@.len() {
                buf@[i - off]
            } else {
                byte_at(*old(log), ino as int, i)
            },
{
    if buf.len() > MAX_FILE_SIZE || off > MAX_FILE_SIZE - buf.len() {
        return Err(FsError::FileTooLarge);
    }
    let n = buf.len();
    let mut done: usize = 0;
    while done < n
        invariant
            log.wf(),
            ino < log.n_inodes(),
            log.n_inodes() == old(log).n_inodes(),
            log.nseg() == old(log).nseg(),
            off + n <= MAX_FILE_SIZE,
            n == buf@.len(),
            done <= n,
            forall|j: int, l: int| j != ino ==> #[trigger] log.block(j, l) == old(log).block(j, l),
            forall|i: int|
                0 <= i ==> #[trigger] byte_at(*log, ino as int, i) == if off <= i < off + done {
                    buf@[i - off]
                } else {
                    byte_at(*old(log), ino as int, i)
                },
        decreases n - done,
    {
        let pos = off + done;
        let b = pos / BLKSIZE;
        let o = pos % BLKSIZE;
        let room = BLKSIZE - o;
        let m = if n - done < room { n - done } else { room };
        let mut blk: Vec<u8> = match log.read_block(ino, b) {
            Some(v) => v,
            None => zero_block(),
        };
        let ghost before = blk@;
        assert(forall|q: int| 0 <= q < 4096 ==> #[trigger] before[q] == match log.block(ino as int, b as int) {
            Some(bb) => bb[q],
            None => 0u8,
        });
        let mut t: usize = 0;
        while t < m
            invariant
                blk@.len() == 4096,
                before.len() == 4096,
                o + m <= 4096,
                done + m <= n,
                n == buf@.len(),
                t <= m,
                forall|q: int| 0 <= q < 4096 ==> #[trigger] blk@[q] == if o <= q < o + t {
                    buf@[done + q - o]
                } else {
                    before[q]
                },
            decreases m - t,
        {
            blk.set(o + t, buf[done + t]);
            t = t + 1;
        }
        let ghost mid = *log;
        proof {
            lemma_div_parts(pos as int);
            assert(b < 1048576);
        }
        let res = log.write_block(ino, b, blk);
        match res {
            Ok(()) => {},
            Err(e) => {
                return Err(e);
            },
        }
        proof {
            assert forall|i: int| 0 <= i implies #[trigger] byte_at(*log, ino as int, i) == if off <= i < off + done + m {
                buf@[i - off]
            } else {
                byte_at(*old(log), ino as int, i)
            } by {
                lemma_div_parts(i);
                if i / 4096 == b as int {
                    let q = i % 4096;
                    lemma_div_block(pos as int, b as int, o as int);
                    assert(i == b * 4096 + q);
                    assert(log.block(ino as int, b as int) == Some(blk@));
                    assert(byte_at(*log, ino as int, i) == blk@[q]);
                    assert(byte_at(mid, ino as int, i) == before[q]);
                    assert(blk@[q] == if o <= q < o + m {
                        buf@[done + q - o]
                    } else {
                        before[q]
                    });
                    assert(byte_at(mid, ino as int, i) == if off <= i < off + done {
                        buf@[i - off]
                    } else {
                        byte_at(*old(log), ino as int, i)
                    });
                } else {
                    assert(log.block(ino as int, i / 4096) == mid.block(ino as int, i / 4096));
                    if pos <= i < pos + m {
                        lemma_div_block(pos as int, b as int, o as int);
                        lemma_div_block(i, b as int, o + (i - pos));
                    }
                    assert(byte_at(*log, ino as int, i) == byte_at(mid, ino as int, i));
                    assert(byte_at(mid, ino as int, i) == if off <= i < off + done {
                        buf@[i - off]
                    } else {
                        byte_at(*old(log), ino as int, i)
                    });
                }
            }
        }
        done = done + m;
    }
    Ok(())
}

/// Bytes written and then read back without a crash come back exactly: where every byte
/// from `off` on reads as `write_at` promises, reading `buf@.len()` bytes at `off` gives `buf`.
pub proof fn lemma_write_read_round_trip(before: Log, after: Log, ino: int, off: int, buf: Seq<u8>)
    requires
        0 <= off,
        forall|i: int|
            0 <= i ==> #[trigger] byte_at(after, ino, i) == if off <= i < off + buf.len() {
                buf[i - off]
            } else {
                byte_at(before, ino, i)
            },
    ensures
        bytes_at(after, ino, off, buf.len() as int) == buf,
{
    assert forall|k: int| 0 <= k < buf.len() implies bytes_at(after, ino, off, buf.len() as int)[k] == buf[k] by {
        assert(byte_at(after, ino, off + k) == buf[k]);
    }
    assert(bytes_at(after, ino, off, buf.len() as int) =~= buf);
}

} // verus!
