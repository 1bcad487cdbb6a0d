//! A fixed-size byte buffer partitioned into named typed sections. Each
//! section carries a 16-byte header — element count, capacity, free-list
//! top and next-unallocated index, all little-endian `u32` — followed by
//! `capacity` records of a fixed size. The buffer is never resized; a
//! section that does not fit is refused with `OutOfSpace`, and record
//! access outside a section's capacity is refused with `IndexOutOfRange`.
use vstd::prelude::*;

use crate::ErrorCode;
use crate::codec::le32_at;
use crate::codec::read_u32_at;
use crate::codec::write_u32_at;

verus! {

/// What one section holds, as parsed from the buffer.
pub ghost struct SectionModel {
    pub tag: u16,
    pub record_size: nat,
    pub capacity: nat,
    pub element_count: u32,
    pub free_top: u32,
    pub bump_next: u32,
    pub records: Seq<Seq<u8>>,
}

/// The arena as seen by callers: its total size, the bytes handed out so
/// far, and the parsed sections.
pub ghost struct ArenaModel {
    pub size: nat,
    pub used: nat,
    pub sections: Seq<SectionModel>,
}

#[derive(Clone, Copy)]
struct SectionInfo {
    tag: u16,
    offset: usize,
    record_size: usize,
    capacity: usize,
}

pub open spec fn zero_bytes(n: nat) -> Seq<u8> {
    Seq::new(n, |i: int| 0u8)
}

spec fn section_bytes(record_size: nat, capacity: nat) -> nat {
    16 + record_size * capacity
}

spec fn section_end(info: SectionInfo) -> int {
    info.offset + 16 + info.record_size * info.capacity
}

/// Index arithmetic for fixed-size records: record `j`'s bytes lie inside
/// the section body, before record `j + 1`.
proof fn lemma_record_bounds(j: int, rs: int, cap: int)
    by (nonlinear_arith)
    requires
        0 <= j < cap,
        0 <= rs,
    ensures
        0 <= j * rs,
        (j + 1) * rs == j * rs + rs,
        (j + 1) * rs <= cap * rs,
        rs * cap == cap * rs,
{
}

/// Two records of one section never overlap: the earlier one ends where a
/// later one begins, or sooner.
proof fn lemma_records_disjoint(j1: int, j2: int, rs: int)
    by (nonlinear_arith)
    requires
        0 <= j1 < j2,
        0 <= rs,
    ensures
        (j1 + 1) * rs <= j2 * rs,
{
}

spec fn parse_section(b: Seq<u8>, info: SectionInfo) -> SectionModel {
    SectionModel {
        tag: info.tag,
        record_size: info.record_size as nat,
        capacity: info.capacity as nat,
        element_count: le32_at(b, info.offset as int),
        free_top: le32_at(b, info.offset + 8),
        bump_next: le32_at(b, info.offset + 12),
        records: Seq::new(
            info.capacity as nat,
            |j: int|
                b.subrange(
                    info.offset + 16 + j * info.record_size,
                    info.offset + 16 + (j + 1) * info.record_size,
                ),
        ),
    }
}

pub struct Arena {
    buf: Vec<u8>,
    dir: Vec<SectionInfo>,
    used: usize,
}

impl View for Arena {
    type V = ArenaModel;

    closed spec fn view(&self) -> ArenaModel {
        ArenaModel {
            size: self.buf@.len(),
            used: self.used as nat,
            sections: Seq::new(
                self.dir@.len(),
                |s: int| parse_section(self.buf@, self.dir@[s]),
            ),
        }
    }
}

impl Arena {
    /// Sections lie in order inside the used prefix of the buffer, never
    /// overlap, keep their stored capacity field equal to the directory's,
    /// and everything past the used prefix is still zero.
    pub closed spec fn wf(self) -> bool {
        &&& self.used <= self.buf@.len()
        &&& forall|s: int|
            0 <= s < self.dir@.len() ==> {
                let info = #[trigger] self.dir@[s];
                &&& section_end(info) <= self.used
                &&& info.capacity <= u32::MAX
                &&& le32_at(self.buf@, info.offset + 4) == info.capacity as u32
            }
        &&& forall|s1: int, s2: int|
            0 <= s1 < s2 < self.dir@.len() ==> section_end(#[trigger] self.dir@[s1])
                <= (#[trigger] self.dir@[s2]).offset
        &&& forall|j: int| self.used <= j < self.buf@.len() ==> self.buf@[j] == 0
    }

    /// Takes ownership of an all-zero buffer and prepares it to host
    /// sections. Callers must verify the zero-fill first: a buffer with any
    /// prior content is evidence of a double initialization.
    pub fn setup(buf: Vec<u8>) -> (a: Arena)
        requires
            forall|j: int| 0 <= j < buf@.len() ==> buf@[j] == 0,
        ensures
            a.wf(),
            a@.size == buf@.len(),
            a@.used == 0,
            a@.sections.len() == 0,
    {
        let a = Arena { buf, dir: Vec::new(), used: 0 };
        proof {
            assert(a@.sections =~= Seq::<SectionModel>::empty());
        }
        a
    }

    /// Reserves space for `capacity` records of `record_size` bytes under
    /// `tag`, with a fresh zeroed header whose capacity field is set.
    /// Fails with `OutOfSpace` exactly when the remaining bytes cannot hold
    /// the section.
    pub fn allocate(&mut self, tag: u16, record_size: usize, capacity: usize) -> (r: Result<
        usize,
        ErrorCode,
    >)
        requires
            old(self).wf(),
            capacity <= u32::MAX,
        ensures
            final(self).wf(),
            final(self)@.size == old(self)@.size,
            16 + record_size * capacity <= old(self)@.size - old(self)@.used ==> r == Ok::<
                usize,
                ErrorCode,
            >(old(self)@.sections.len() as usize),
            16 + record_size * capacity > old(self)@.size - old(self)@.used ==> r == Err::<
                usize,
                ErrorCode,
            >(ErrorCode::OutOfSpace) && *final(self) == *old(self),
            r is Ok ==> {
                &&& final(self)@.used == old(self)@.used + 16 + record_size * capacity
                &&& final(self)@.sections =~= old(self)@.sections.push(
                    SectionModel {
                        tag,
                        record_size: record_size as nat,
                        capacity: capacity as nat,
                        element_count: 0,
                        free_top: 0,
                        bump_next: 0,
                        records: Seq::new(capacity as nat, |j: int| zero_bytes(record_size as nat)),
                    },
                )
            },
    {
        let buf_len: usize = self.buf.len();
        let body: usize = match record_size.checked_mul(capacity) {
            Some(b) => b,
            None => {
                proof {
                    vstd::arithmetic::mul::lemma_mul_strict_upper_bound(
                        record_size as int,
                        usize::MAX as int + 1,
                        capacity as int,
                        usize::MAX as int + 1,
                    );
                }
                return Err(ErrorCode::OutOfSpace);
            },
        };
        let need: usize = match body.checked_add(16) {
            Some(n) => n,
            None => {
                return Err(ErrorCode::OutOfSpace);
            },
        };
        if need > buf_len - self.used {
            return Err(ErrorCode::OutOfSpace);
        }
        let offset: usize = self.used;
        let info = SectionInfo { tag, offset, record_size, capacity };
        let ghost old_self = *self;
        self.used = self.used + need;
        write_u32_at(&mut self.buf, offset + 4, capacity as u32);
        let idx: usize = self.dir.len();
        self.dir.push(info);
        proof {
            let b1 = old_self.buf@;
            let b2 = self.buf@;
            assert forall|s: int| 0 <= s < old_self.dir@.len() implies parse_section(b2, #[trigger] old_self.dir@[s])
                == parse_section(b1, old_self.dir@[s]) by {
                let i2 = old_self.dir@[s];
                assert(section_end(i2) <= offset);
                assert(le32_at(b2, i2.offset as int) == le32_at(b1, i2.offset as int));
                assert(le32_at(b2, i2.offset + 8) == le32_at(b1, i2.offset + 8));
                assert(le32_at(b2, i2.offset + 12) == le32_at(b1, i2.offset + 12));
                assert(parse_section(b2, i2).records =~= parse_section(b1, i2).records) by {
                    assert forall|j: int| 0 <= j < i2.capacity implies parse_section(
                        b2,
                        i2,
                    ).records[j] =~= parse_section(b1, i2).records[j] by {
                        lemma_record_bounds(j, i2.record_size as int, i2.capacity as int);
                        let lo = i2.offset + 16 + j * i2.record_size;
                        assert(lo + i2.record_size <= section_end(i2));
                        assert forall|i: int| 0 <= i < i2.record_size implies b2[lo + i] == #[trigger] b1[lo + i] by {
                            assert(lo + i < offset + 4);
                        }
                        assert(b2.subrange(lo, lo + i2.record_size) =~= b1.subrange(
                            lo,
                            lo + i2.record_size,
                        ));
                    }
                }
            }
            let new_sec = parse_section(b2, info);
            assert(le32_at(b2, info.offset + 4) == capacity as u32);
            assert(new_sec.element_count == 0 && new_sec.free_top == 0 && new_sec.bump_next == 0);
            assert(new_sec.records =~= Seq::new(
                capacity as nat,
                |j: int| zero_bytes(record_size as nat),
            )) by {
                assert forall|j: int| 0 <= j < capacity implies new_sec.records[j] =~= zero_bytes(
                    record_size as nat,
                ) by {
                    lemma_record_bounds(j, record_size as int, capacity as int);
                    let lo = info.offset + 16 + j * record_size;
                    assert(lo + record_size <= offset + need);
                    assert forall|i: int| 0 <= i < record_size implies new_sec.records[j][i]
                        == 0u8 by {
                        assert(lo + i < b2.len());
                        assert(lo + i >= offset + 16);
                        assert(b2[lo + i] == b1[lo + i]);
                        assert(b1[lo + i] == 0);
                    }
                }
            }
            assert(self@.sections =~= old_self@.sections.push(new_sec));
        }
        Ok(idx)
    }

    /// Number of sections allocated so far.
    pub fn section_count(&self) -> (r: usize)
        ensures
            r == self@.sections.len(),
    {
        self.dir.len()
    }

    /// The fixed capacity of a section.
    pub fn capacity(&self, sect: usize) -> (r: u32)
        requires
            self.wf(),
            sect < self@.sections.len(),
        ensures
            r == self@.sections[sect as int].capacity,
    {
        self.dir[sect].capacity as u32
    }

    /// The stored element count of a section's header.
    pub fn element_count(&self, sect: usize) -> (r: u32)
        requires
            self.wf(),
            sect < self@.sections.len(),
        ensures
            r == self@.sections[sect as int].element_count,
    {
        let info = self.dir[sect];
        let n: usize = self.buf.len();
        read_u32_at(&self.buf, info.offset)
    }

    /// The stored free-list top of a section's header.
    pub fn free_top(&self, sect: usize) -> (r: u32)
        requires
            self.wf(),
            sect < self@.sections.len(),
        ensures
            r == self@.sections[sect as int].free_top,
    {
        let info = self.dir[sect];
        let n: usize = self.buf.len();
        read_u32_at(&self.buf, info.offset + 8)
    }

    /// The stored next-unallocated index of a section's header.
    pub fn bump_next(&self, sect: usize) -> (r: u32)
        requires
            self.wf(),
            sect < self@.sections.len(),
        ensures
            r == self@.sections[sect as int].bump_next,
    {
        let info = self.dir[sect];
        let n: usize = self.buf.len();
        read_u32_at(&self.buf, info.offset + 12)
    }

    /// Writes one little-endian `u32` header field at byte `field` of the
    /// section header (0 = element count, 8 = free top, 12 = next index),
    /// leaving every other parsed component of the arena unchanged.
    fn set_header_field(&mut self, sect: usize, field: usize, v: u32)
        requires
            old(self).wf(),
            sect < old(self)@.sections.len(),
            field == 0 || field == 8 || field == 12,
        ensures
            final(self).wf(),
            final(self)@.size == old(self)@.size,
            final(self)@.used == old(self)@.used,
            final(self)@.sections =~= old(self)@.sections.update(
                sect as int,
                (SectionModel {
                    element_count: if field == 0 {
                        v
                    } else {
                        old(self)@.sections[sect as int].element_count
                    },
                    free_top: if field == 8 {
                        v
                    } else {
                        old(self)@.sections[sect as int].free_top
                    },
                    bump_next: if field == 12 {
                        v
                    } else {
                        old(self)@.sections[sect as int].bump_next
                    },
                    ..old(self)@.sections[sect as int]
                }),
            ),
    {
        let info = self.dir[sect];
        let n: usize = self.buf.len();
        let ghost old_self = *self;
        proof {
            lemma_record_bounds(0, info.record_size as int, if info.capacity == 0 {
                1
            } else {
                info.capacity as int
            });
            assert(info.record_size * info.capacity >= 0) by (nonlinear_arith);
        }
        write_u32_at(&mut self.buf, info.offset + field, v);
        proof {
            let b1 = old_self.buf@;
            let b2 = self.buf@;
            let lo = info.offset + field;
            assert forall|s: int| 0 <= s < self.dir@.len() && s != sect implies parse_section(
                b2,
                #[trigger] self.dir@[s],
            ) == parse_section(b1, self.dir@[s]) by {
                let i2 = self.dir@[s];
                if s < sect {
                    assert(section_end(i2) <= info.offset);
                } else {
                    assert(section_end(self.dir@[sect as int]) <= i2.offset);
                    assert(lo + 4 <= info.offset + 16);
                    assert(info.record_size * info.capacity >= 0) by (nonlinear_arith);
                }
                assert(le32_at(b2, i2.offset as int) == le32_at(b1, i2.offset as int));
                assert(le32_at(b2, i2.offset + 4) == le32_at(b1, i2.offset + 4));
                assert(le32_at(b2, i2.offset + 8) == le32_at(b1, i2.offset + 8));
                assert(le32_at(b2, i2.offset + 12) == le32_at(b1, i2.offset + 12));
                assert(parse_section(b2, i2).records =~= parse_section(b1, i2).records) by {
                    assert forall|j: int| 0 <= j < i2.capacity implies parse_section(
                        b2,
                        i2,
                    ).records[j] =~= parse_section(b1, i2).records[j] by {
                        lemma_record_bounds(j, i2.record_size as int, i2.capacity as int);
                        let rlo = i2.offset + 16 + j * i2.record_size;
                        assert(rlo + i2.record_size <= section_end(i2));
                        assert forall|i: int| 0 <= i < i2.record_size implies b2[rlo + i]
                            == #[trigger] b1[rlo + i] by {
                            assert(!(lo <= rlo + i < lo + 4));
                        }
                        assert(b2.subrange(rlo, rlo + i2.record_size) =~= b1.subrange(
                            rlo,
                            rlo + i2.record_size,
                        ));
                    }
                }
            }
            assert(parse_section(b2, info).records =~= parse_section(b1, info).records) by {
                assert forall|j: int| 0 <= j < info.capacity implies parse_section(
                    b2,
                    info,
                ).records[j] =~= parse_section(b1, info).records[j] by {
                    lemma_record_bounds(j, info.record_size as int, info.capacity as int);
                    let rlo = info.offset + 16 + j * info.record_size;
                    assert forall|i: int| 0 <= i < info.record_size implies b2[rlo + i]
                        == #[trigger] b1[rlo + i] by {
                        assert(!(lo <= rlo + i < lo + 4));
                    }
                    assert(b2.subrange(rlo, rlo + info.record_size) =~= b1.subrange(
                        rlo,
                        rlo + info.record_size,
                    ));
                }
            }
            assert(le32_at(b2, info.offset + 4) == le32_at(b1, info.offset + 4));
        }
    }

    /// Sets the element-count header field of a section.
    pub fn set_element_count(&mut self, sect: usize, v: u32)
        requires
            old(self).wf(),
            sect < old(self)@.sections.len(),
        ensures
            final(self).wf(),
            final(self)@.size == old(self)@.size,
            final(self)@.used == old(self)@.used,
            final(self)@.sections =~= old(self)@.sections.update(
                sect as int,
                (SectionModel { element_count: v, ..old(self)@.sections[sect as int] }),
            ),
    {
        self.set_header_field(sect, 0, v)
    }

    /// Sets the free-list top header field of a section.
    pub fn set_free_top(&mut self, sect: usize, v: u32)
        requires
            old(self).wf(),
            sect < old(self)@.sections.len(),
        ensures
            final(self).wf(),
            final(self)@.size == old(self)@.size,
            final(self)@.used == old(self)@.used,
            final(self)@.sections =~= old(self)@.sections.update(
                sect as int,
                (SectionModel { free_top: v, ..old(self)@.sections[sect as int] }),
            ),
    {
        self.set_header_field(sect, 8, v)
    }

    /// Sets the next-unallocated-index header field of a section.
    pub fn set_bump_next(&mut self, sect: usize, v: u32)
        requires
            old(self).wf(),
            sect < old(self)@.sections.len(),
        ensures
            final(self).wf(),
            final(self)@.size == old(self)@.size,
            final(self)@.used == old(self)@.used,
            final(self)@.sections =~= old(self)@.sections.update(
                sect as int,
                (SectionModel { bump_next: v, ..old(self)@.sections[sect as int] }),
            ),
    {
        self.set_header_field(sect, 12, v)
    }

    /// A copy of record `idx`'s bytes; out-of-range access is refused with
    /// `IndexOutOfRange`.
    pub fn index_bytes(&self, sect: usize, idx: usize) -> (r: Result<Vec<u8>, ErrorCode>)
        requires
            self.wf(),
            sect < self@.sections.len(),
        ensures
            match r {
                Ok(v) => idx < self@.sections[sect as int].capacity && v@ == self@.sections[sect
                    as int].records[idx as int],
                Err(e) => e == ErrorCode::IndexOutOfRange && idx >= self@.sections[sect
                    as int].capacity,
            },
    {
        let info = self.dir[sect];
        if idx >= info.capacity {
            return Err(ErrorCode::IndexOutOfRange);
        }
        proof {
            lemma_record_bounds(idx as int, info.record_size as int, info.capacity as int);
        }
        let n: usize = self.buf.len();
        let lo: usize = info.offset + 16 + idx * info.record_size;
        let mut out: Vec<u8> = Vec::new();
        let mut i: usize = 0;
        while i < info.record_size
            invariant
                self.wf(),
                sect < self@.sections.len(),
                info == self.dir@[sect as int],
                idx < info.capacity,
                i <= info.record_size,
                lo == info.offset + 16 + idx * info.record_size,
                lo + info.record_size <= section_end(info),
                section_end(info) <= self.buf@.len(),
                out@ =~= self.buf@.subrange(lo as int, lo + i),
            decreases info.record_size - i,
        {
            out.push(self.buf[lo + i]);
            proof {
                assert(out@ =~= self.buf@.subrange(lo as int, lo + i + 1));
            }
            i = i + 1;
        }
        proof {
            assert(out@ =~= self@.sections[sect as int].records[idx as int]);
        }
        Ok(out)
    }

    /// Overwrites record `idx`'s bytes, leaving every other record, every
    /// header field and every other section unchanged; out-of-range access
    /// is refused with `IndexOutOfRange`.
    pub fn write_record(&mut self, sect: usize, idx: usize, bytes: &Vec<u8>) -> (r: Result<
        (),
        ErrorCode,
    >)
        requires
            old(self).wf(),
            sect < old(self)@.sections.len(),
            bytes@.len() == old(self)@.sections[sect as int].record_size,
        ensures
            final(self).wf(),
            final(self)@.size == old(self)@.size,
            final(self)@.used == old(self)@.used,
            match r {
                Ok(()) => idx < old(self)@.sections[sect as int].capacity && final(self)@.sections
                    =~= old(self)@.sections.update(
                    sect as int,
                    (SectionModel {
                        records: old(self)@.sections[sect as int].records.update(
                            idx as int,
                            bytes@,
                        ),
                        ..old(self)@.sections[sect as int]
                    }),
                ),
                Err(e) => e == ErrorCode::IndexOutOfRange && idx >= old(self)@.sections[sect
                    as int].capacity && *final(self) == *old(self),
            },
    {
        let info = self.dir[sect];
        if idx >= info.capacity {
            return Err(ErrorCode::IndexOutOfRange);
        }
        proof {
            lemma_record_bounds(idx as int, info.record_size as int, info.capacity as int);
        }
        let n: usize = self.buf.len();
        let lo: usize = info.offset + 16 + idx * info.record_size;
        let ghost old_self = *self;
        let mut i: usize = 0;
        while i < info.record_size
            invariant
                sect < self.dir@.len(),
                info == self.dir@[sect as int],
                idx < info.capacity,
                i <= info.record_size,
                lo == info.offset + 16 + idx * info.record_size,
                lo + info.record_size <= section_end(info),
                section_end(info) <= old_self.used,
                old_self.used <= old_self.buf@.len(),
                bytes@.len() == info.record_size,
                self.dir == old_self.dir,
                self.used == old_self.used,
                self.buf@.len() == old_self.buf@.len(),
                forall|k: int|
                    0 <= k < self.buf@.len() && !(lo <= k < lo + i) ==> self.buf@[k]
                        == old_self.buf@[k],
                forall|k: int| lo <= k < lo + i ==> self.buf@[k] == bytes@[k - lo],
            decreases info.record_size - i,
        {
            self.buf.set(lo + i, bytes[i]);
            i = i + 1;
        }
        proof {
            let b1 = old_self.buf@;
            let b2 = self.buf@;
            assert forall|s: int| 0 <= s < self.dir@.len() && s != sect implies parse_section(
                b2,
                #[trigger] self.dir@[s],
            ) == parse_section(b1, self.dir@[s]) by {
                let i2 = self.dir@[s];
                if s < sect {
                    assert(section_end(i2) <= info.offset);
                } else {
                    assert(section_end(info) <= i2.offset);
                }
                assert(le32_at(b2, i2.offset as int) == le32_at(b1, i2.offset as int));
                assert(le32_at(b2, i2.offset + 4) == le32_at(b1, i2.offset + 4));
                assert(le32_at(b2, i2.offset + 8) == le32_at(b1, i2.offset + 8));
                assert(le32_at(b2, i2.offset + 12) == le32_at(b1, i2.offset + 12));
                assert(parse_section(b2, i2).records =~= parse_section(b1, i2).records) by {
                    assert forall|j: int| 0 <= j < i2.capacity implies parse_section(
                        b2,
                        i2,
                    ).records[j] =~= parse_section(b1, i2).records[j] by {
                        lemma_record_bounds(j, i2.record_size as int, i2.capacity as int);
                        let rlo = i2.offset + 16 + j * i2.record_size;
                        assert(rlo + i2.record_size <= section_end(i2));
                        assert forall|k: int| 0 <= k < i2.record_size implies b2[rlo + k]
                            == #[trigger] b1[rlo + k] by {
                            assert(!(lo <= rlo + k < lo + info.record_size));
                        }
                        assert(b2.subrange(rlo, rlo + i2.record_size) =~= b1.subrange(
                            rlo,
                            rlo + i2.record_size,
                        ));
                    }
                }
            }
            let s1 = parse_section(b1, info);
            let s2 = parse_section(b2, info);
            assert(le32_at(b2, info.offset as int) == le32_at(b1, info.offset as int));
            assert(le32_at(b2, info.offset + 4) == le32_at(b1, info.offset + 4));
            assert(le32_at(b2, info.offset + 8) == le32_at(b1, info.offset + 8));
            assert(le32_at(b2, info.offset + 12) == le32_at(b1, info.offset + 12));
            assert(s2.records =~= s1.records.update(idx as int, bytes@)) by {
                assert forall|j: int| 0 <= j < info.capacity implies s2.records[j]
                    =~= (if j == idx {
                    bytes@
                } else {
                    s1.records[j]
                }) by {
                    lemma_record_bounds(j, info.record_size as int, info.capacity as int);
                    let rlo = info.offset + 16 + j * info.record_size;
                    if j == idx {
                        assert forall|k: int| 0 <= k < info.record_size implies b2[rlo + k]
                            == bytes@[k] by {
                            assert(lo <= rlo + k < lo + info.record_size);
                        }
                        assert(b2.subrange(rlo, rlo + info.record_size) =~= bytes@);
                    } else {
                        if j < idx {
                            lemma_records_disjoint(j, idx as int, info.record_size as int);
                        } else {
                            lemma_records_disjoint(idx as int, j, info.record_size as int);
                        }
                        assert forall|k: int| 0 <= k < info.record_size implies b2[rlo + k]
                            == #[trigger] b1[rlo + k] by {
                            assert(!(lo <= rlo + k < lo + info.record_size));
                        }
                        assert(b2.subrange(rlo, rlo + info.record_size) =~= b1.subrange(
                            rlo,
                            rlo + info.record_size,
                        ));
                    }
                }
            }
            assert forall|s: int| 0 <= s < self.dir@.len() implies le32_at(
                b2,
                (#[trigger] self.dir@[s]).offset + 4,
            ) == self.dir@[s].capacity as u32 by {
                let i2 = self.dir@[s];
                if s < sect {
                    assert(section_end(i2) <= info.offset);
                } else if s > sect {
                    assert(section_end(info) <= i2.offset);
                }
                assert(le32_at(b2, i2.offset + 4) == le32_at(b1, i2.offset + 4));
            }
            assert forall|k: int| self.used <= k < b2.len() implies b2[k] == 0 by {
                assert(!(lo <= k < lo + info.record_size));
                assert(b2[k] == b1[k]);
            }
        }
        Ok(())
    }
}

} // verus!
