use vstd::prelude::*;
use vstd::string::StringSliceAdditionalSpecFns;

verus! {

/// A run of disk blocks: free space of a size, or a file of a size with its id.
#[derive(Clone, Copy, Debug, PartialEq, Eq, Structural)]
pub enum Block {
    Free(usize),
    File(usize, usize),
}

pub open spec fn block_size(b: Block) -> usize {
    match b {
        Block::Free(size) => size,
        Block::File(size, _) => size,
    }
}

pub open spec fn min(a: usize, b: usize) -> usize {
    if a <= b {
        a
    } else {
        b
    }
}

impl Block {
    pub fn size(&self) -> (r: usize)
        ensures
            r == block_size(*self),
    {
        match self {
            Block::Free(size) => *size,
            Block::File(size, _) => *size,
        }
    }

    /// Moves as much of file `other` as fits into this free block: both
    /// shrink by that amount, and the moved part comes back as a file block.
    /// Nothing happens unless this block is free and `other` is a file.
    pub fn frag(&mut self, other: &mut Block) -> (r: Option<Block>)
        ensures
            match (*old(self), *old(other)) {
                (Block::Free(fs), Block::File(size, id)) => {
                    &&& r == Some(Block::File(min(fs, size), id))
                    &&& *final(self) == Block::Free((fs - min(fs, size)) as usize)
                    &&& *final(other) == Block::File((size - min(fs, size)) as usize, id)
                },
                _ => r is None && *final(self) == *old(self) && *final(other) == *old(other),
            },
    {
        match *self {
            Block::Free(free_size) => match *other {
                Block::File(file_size, file_id) => {
                    let transfer = if free_size <= file_size {
                        free_size
                    } else {
                        file_size
                    };
                    *self = Block::Free(free_size - transfer);
                    *other = Block::File(file_size - transfer, file_id);
                    Some(Block::File(transfer, file_id))
                },
                _ => None,
            },
            _ => None,
        }
    }
}

pub open spec fn all_digits(t: Seq<u8>) -> bool {
    forall|k: int| 0 <= k < t.len() ==> 48 <= #[trigger] t[k] <= 57
}

/// The disk map as blocks: sizes at even positions are files (with ids
/// counting up from 0), at odd positions free space. No result where a byte
/// is not a digit.
pub fn disk_blocks(input: &str) -> (r: Option<Vec<Block>>)
    ensures
        r is Some <==> all_digits(input.spec_bytes()),
{
    let t = input.as_bytes();
    let mut blocks: Vec<Block> = Vec::new();
    for i in 0..t.len()
        invariant
            t@ == input.spec_bytes(),
            forall|k: int| 0 <= k < i ==> 48 <= #[trigger] t@[k] <= 57,
    {
        let b = t[i];
        if b < 48 || b > 57 {
            return None;
        }
        let size = (b - 48) as usize;
        if i % 2 == 0 {
            blocks.push(Block::File(size, i / 2));
        } else {
            blocks.push(Block::Free(size));
        }
    }
    Some(blocks)
}

fn mul_wide(a: u64, b: u64) -> (r: u128)
    ensures
        r == a * b,
{
    assert(a * b <= u128::MAX) by (nonlinear_arith)
        requires
            a <= u64::MAX,
            b <= u64::MAX,
    ;
    (a as u128) * (b as u128)
}

/// The checksum of a disk laid out as `blocks`: each file cell adds its
/// position times its file id. No result where it does not fit in a `u64`.
pub fn get_checksum(blocks: &Vec<Block>) -> (r: Option<u64>) {
    let mut pos: u64 = 0;
    let mut sum: u64 = 0;
    for k in 0..blocks.len() {
        let (size, id) = match blocks[k] {
            Block::Free(size) => (size, None),
            Block::File(size, id) => (size, Some(id)),
        };
        for c in 0..size {
            match id {
                Some(id) => {
                    let term = mul_wide(pos, id as u64);
                    if term > (u64::MAX - sum) as u128 {
                        return None;
                    }
                    sum = sum + term as u64;
                },
                None => {},
            }
            if pos == u64::MAX {
                return None;
            }
            pos = pos + 1;
        }
    }
    Some(sum)
}

/// Compacts the disk cell by cell: the last file cell moves into the first
/// free cell until no free cell is left of a file cell; then the checksum.
pub fn handle_puzzle1(input: &str) -> (r: Option<u64>)
    ensures
        !all_digits(input.spec_bytes()) ==> r is None,
{
    let blocks = match disk_blocks(input) {
        Some(b) => b,
        None => {
            return None;
        },
    };
    let mut cells: Vec<Block> = Vec::new();
    for k in 0..blocks.len() {
        match blocks[k] {
            Block::Free(size) => {
                for c in 0..size {
                    cells.push(Block::Free(1));
                }
            },
            Block::File(size, id) => {
                for c in 0..size {
                    cells.push(Block::File(1, id));
                }
            },
        }
    }
    let mut lo: usize = 0;
    let mut hi: usize = cells.len();
    while lo < hi
        invariant
            hi <= cells.len(),
        decreases hi - lo,
    {
        if matches!(cells[lo], Block::File(_, _)) {
            lo = lo + 1;
        } else if matches!(cells[hi - 1], Block::Free(_)) {
            hi = hi - 1;
        } else {
            let moved = cells[hi - 1];
            let hole = cells[lo];
            cells.set(lo, moved);
            cells.set(hi - 1, hole);
            lo = lo + 1;
            hi = hi - 1;
        }
    }
    get_checksum(&cells)
}

/// Compacts the disk file by file: from the highest id down, each file moves
/// to the leftmost free span left of it that holds it whole; then the checksum.
pub fn handle_puzzle2(input: &str) -> (r: Option<u64>)
    ensures
        !all_digits(input.spec_bytes()) ==> r is None,
{
    let blocks = match disk_blocks(input) {
        Some(b) => b,
        None => {
            return None;
        },
    };
    let mut files: Vec<(u64, u64, u64)> = Vec::new();
    let mut holes: Vec<(u64, u64)> = Vec::new();
    let mut pos: u64 = 0;
    for k in 0..blocks.len() {
        match blocks[k] {
            Block::File(size, id) => files.push((pos, size as u64, id as u64)),
            Block::Free(size) => holes.push((pos, size as u64)),
        }
        let size = match blocks[k] {
            Block::File(size, _) => size as u64,
            Block::Free(size) => size as u64,
        };
        if size > u64::MAX - pos {
            return None;
        }
        pos = pos + size;
    }
    let nf = files.len();
    let mut f = nf;
    while f > 0
        invariant
            f <= nf,
            files.len() == nf,
        decreases f,
    {
        f = f - 1;
        let (fpos, fsize, fid) = files[f];
        let mut h: usize = 0;
        let mut done = false;
        while h < holes.len() && !done
            invariant
                f < nf,
                files.len() == nf,
            decreases holes.len() - h,
        {
            let (hpos, hsize) = holes[h];
            if hpos < fpos && hsize >= fsize && fsize <= u64::MAX - hpos {
                files.set(f, (hpos, fsize, fid));
                holes.set(h, (hpos + fsize, hsize - fsize));
                done = true;
            }
            h = h + 1;
        }
    }
    let mut sum: u64 = 0;
    for k in 0..files.len() {
        let (fpos, fsize, fid) = files[k];
        for c in 0..fsize {
            if c > u64::MAX - fpos {
                return None;
            }
            let term = mul_wide(fpos + c, fid);
            if term > (u64::MAX - sum) as u128 {
                return None;
            }
            sum = sum + term as u64;
        }
    }
    Some(sum)
}

} // verus!
