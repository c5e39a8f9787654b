//! Whether the release of guest memory depends on how it was allocated: the
//! matrix of allocation shape, who touched the pages, and release sequence,
//! one child process per cell.

use crate::guest::RAM_GPA;
use crate::ledger::PAGE;
use crate::options::{gib, shifted, Advice, ReclaimMode};
use crate::protocol::lemma_one_more_word;
use crate::reclaim::{reclaim_ops, HostOp};
use crate::stride::{offsets, Strides};
use crate::text::{
    decimal, decimal_of, joined, lemma_decimal_reads_back, lines, lines_of, parse_u64, pieces,
    same, signed_decimal, signed_decimal_of, split_at_each, strip_prefix, stripped, texts,
    u64_value, white_space, words, words_of,
};
use vstd::prelude::*;

verus! {

/// How guest RAM is allocated.
#[derive(Clone, Copy, PartialEq, Eq, Structural, Debug)]
pub enum Shape {
    /// What most monitors use.
    MmapPrivate,
    /// What a monitor picks when a device thread shares the guest window.
    MmapShared,
    /// Apple's documented allocator for guest RAM.
    HvAllocate,
}

/// Who touches the pages.
#[derive(Clone, Copy, PartialEq, Eq, Structural, Debug)]
pub enum Toucher {
    /// Control: the pages are resident, but no stage-2 mapping ever resolved.
    Host,
    /// A vCPU faulted every page through stage 2.
    Guest,
}

/// How the memory is given back.
#[derive(Clone, Copy, PartialEq, Eq, Structural, Debug)]
pub enum Sequence {
    /// Advise while the stage-2 mapping still exists.
    InPlace,
    /// Unmap, advise, remap.
    UnmapFirst,
    /// Unmap and remap with no advice at all.
    UnmapOnly,
}

impl Shape {
    pub open spec fn name_of(self) -> Seq<char> {
        match self {
            Shape::MmapPrivate => "mmap(PRIVATE)"@,
            Shape::MmapShared => "mmap(SHARED)"@,
            Shape::HvAllocate => "hv_vm_allocate"@,
        }
    }

    pub open spec fn tag_of(self) -> Seq<char> {
        match self {
            Shape::MmapPrivate => "private"@,
            Shape::MmapShared => "shared"@,
            Shape::HvAllocate => "hvalloc"@,
        }
    }

    /// The shape a tag stands for.
    pub open spec fn tagged(s: Seq<char>) -> Option<Shape> {
        if s == "private"@ {
            Some(Shape::MmapPrivate)
        } else if s == "shared"@ {
            Some(Shape::MmapShared)
        } else if s == "hvalloc"@ {
            Some(Shape::HvAllocate)
        } else {
            None
        }
    }

    pub fn name(self) -> (r: &'static str)
        ensures
            r@ == self.name_of(),
    {
        match self {
            Shape::MmapPrivate => "mmap(PRIVATE)",
            Shape::MmapShared => "mmap(SHARED)",
            Shape::HvAllocate => "hv_vm_allocate",
        }
    }

    pub fn parse(s: &str) -> (r: Option<Shape>)
        ensures
            r == Shape::tagged(s@),
    {
        if same(s, "private") {
            Some(Shape::MmapPrivate)
        } else if same(s, "shared") {
            Some(Shape::MmapShared)
        } else if same(s, "hvalloc") {
            Some(Shape::HvAllocate)
        } else {
            None
        }
    }

    pub fn tag(self) -> (r: &'static str)
        ensures
            r@ == self.tag_of(),
    {
        match self {
            Shape::MmapPrivate => "private",
            Shape::MmapShared => "shared",
            Shape::HvAllocate => "hvalloc",
        }
    }
}

impl Toucher {
    pub open spec fn name_of(self) -> Seq<char> {
        match self {
            Toucher::Host => "host"@,
            Toucher::Guest => "guest"@,
        }
    }

    /// The toucher a name stands for.
    pub open spec fn named(s: Seq<char>) -> Option<Toucher> {
        if s == "host"@ {
            Some(Toucher::Host)
        } else if s == "guest"@ {
            Some(Toucher::Guest)
        } else {
            None
        }
    }

    pub fn name(self) -> (r: &'static str)
        ensures
            r@ == self.name_of(),
    {
        match self {
            Toucher::Host => "host",
            Toucher::Guest => "guest",
        }
    }

    pub fn parse(s: &str) -> (r: Option<Toucher>)
        ensures
            r == Toucher::named(s@),
    {
        if same(s, "host") {
            Some(Toucher::Host)
        } else if same(s, "guest") {
            Some(Toucher::Guest)
        } else {
            None
        }
    }
}

impl Sequence {
    pub open spec fn name_of(self) -> Seq<char> {
        match self {
            Sequence::InPlace => "in-place"@,
            Sequence::UnmapFirst => "unmap-first"@,
            Sequence::UnmapOnly => "unmap-only"@,
        }
    }

    pub open spec fn tag_of(self) -> Seq<char> {
        match self {
            Sequence::InPlace => "inplace"@,
            Sequence::UnmapFirst => "unmap"@,
            Sequence::UnmapOnly => "unmaponly"@,
        }
    }

    /// The sequence a tag stands for.
    pub open spec fn tagged(s: Seq<char>) -> Option<Sequence> {
        if s == "inplace"@ {
            Some(Sequence::InPlace)
        } else if s == "unmap"@ {
            Some(Sequence::UnmapFirst)
        } else if s == "unmaponly"@ {
            Some(Sequence::UnmapOnly)
        } else {
            None
        }
    }

    pub fn name(self) -> (r: &'static str)
        ensures
            r@ == self.name_of(),
    {
        match self {
            Sequence::InPlace => "in-place",
            Sequence::UnmapFirst => "unmap-first",
            Sequence::UnmapOnly => "unmap-only",
        }
    }

    pub fn parse(s: &str) -> (r: Option<Sequence>)
        ensures
            r == Sequence::tagged(s@),
    {
        if same(s, "inplace") {
            Some(Sequence::InPlace)
        } else if same(s, "unmap") {
            Some(Sequence::UnmapFirst)
        } else if same(s, "unmaponly") {
            Some(Sequence::UnmapOnly)
        } else {
            None
        }
    }

    pub fn tag(self) -> (r: &'static str)
        ensures
            r@ == self.tag_of(),
    {
        match self {
            Sequence::InPlace => "inplace",
            Sequence::UnmapFirst => "unmap",
            Sequence::UnmapOnly => "unmaponly",
        }
    }
}

/// One cell of the matrix, as a child is told of it.
#[derive(Clone, Copy, PartialEq, Eq, Structural, Debug)]
pub struct Cell {
    pub shape: Shape,
    pub toucher: Toucher,
    pub sequence: Sequence,
    pub size_gb: u64,
}

/// Why a cell's text says nothing.
#[derive(Clone, Copy, PartialEq, Eq, Structural, Debug)]
pub enum CellError {
    /// There are not four parts.
    Parts { count: usize },
    UnknownShape,
    UnknownToucher,
    UnknownSequence,
    BadSize,
}

/// The cell that four parts stand for.
pub open spec fn cell_of_parts(p: Seq<Seq<char>>) -> Result<Cell, CellError> {
    if p.len() != 4 {
        Err(CellError::Parts { count: p.len() as usize })
    } else {
        match (
            Shape::tagged(p[0]),
            Toucher::named(p[1]),
            Sequence::tagged(p[2]),
            u64_value(p[3]),
        ) {
            (None, _, _, _) => Err(CellError::UnknownShape),
            (_, None, _, _) => Err(CellError::UnknownToucher),
            (_, _, None, _) => Err(CellError::UnknownSequence),
            (_, _, _, None) => Err(CellError::BadSize),
            (Some(shape), Some(toucher), Some(sequence), Some(size_gb)) => Ok(
                Cell { shape, toucher, sequence, size_gb },
            ),
        }
    }
}

impl Cell {
    /// `shape:toucher:sequence:size_gb`.
    pub open spec fn text_of(self) -> Seq<char> {
        self.shape.tag_of() + ":"@ + self.toucher.name_of() + ":"@ + self.sequence.tag_of() + ":"@
            + decimal_of(self.size_gb as nat)
    }

    pub fn text(&self) -> (r: String)
        ensures
            r@ == self.text_of(),
    {
        let mut r = self.shape.tag().to_owned();
        r.append(":");
        r.append(self.toucher.name());
        r.append(":");
        r.append(self.sequence.tag());
        r.append(":");
        r.append(decimal(self.size_gb).as_str());
        r
    }

    /// Reads a cell back from its text.
    pub fn parse(s: &str) -> (r: Result<Cell, CellError>)
        ensures
            r == cell_of_parts(pieces(s@, ':')),
    {
        let parts = split_at_each(s, ':');
        assert(texts(parts@).len() == parts@.len());
        let count: usize = parts.len();
        if count != 4 {
            return Err(CellError::Parts { count });
        }
        assert(texts(parts@)[0] == parts@[0]@);
        assert(texts(parts@)[1] == parts@[1]@);
        assert(texts(parts@)[2] == parts@[2]@);
        assert(texts(parts@)[3] == parts@[3]@);
        let shape = match Shape::parse(parts[0].as_str()) {
            Some(v) => v,
            None => {
                return Err(CellError::UnknownShape);
            },
        };
        let toucher = match Toucher::parse(parts[1].as_str()) {
            Some(v) => v,
            None => {
                return Err(CellError::UnknownToucher);
            },
        };
        let sequence = match Sequence::parse(parts[2].as_str()) {
            Some(v) => v,
            None => {
                return Err(CellError::UnknownSequence);
            },
        };
        match parse_u64(parts[3].as_str()) {
            Some(size_gb) => Ok(Cell { shape, toucher, sequence, size_gb }),
            None => Err(CellError::BadSize),
        }
    }

    /// The cell's memory in bytes.
    pub fn size(&self) -> (r: u64)
        ensures
            r == shifted(self.size_gb, 0x4000_0000),
    {
        gib(self.size_gb)
    }

    /// The offsets the host touches.
    pub fn pages(&self) -> (r: Strides)
        ensures
            r.wf(),
            r.remaining() == offsets(0, shifted(self.size_gb, 0x4000_0000), PAGE as int),
    {
        Strides::over(0, self.size(), PAGE)
    }
}

/// What the host writes to a page before its offset is added.
pub const HOST_WORD: u64 = 0xA5A5_0000;

/// What the host writes to the page at `off`.
pub fn host_word(off: u64) -> (r: u64)
    requires
        HOST_WORD + off <= u64::MAX,
    ensures
        r == HOST_WORD + off,
{
    HOST_WORD + off
}

proof fn lemma_pieces_of_plain(s: Seq<char>, sep: char)
    requires
        forall|i: int| 0 <= i < s.len() ==> #[trigger] s[i] != sep,
    ensures
        pieces(s, sep) == seq![s],
    decreases s.len(),
{
    if s.len() > 0 {
        let rest = s.drop_last();
        assert forall|i: int| 0 <= i < rest.len() implies #[trigger] rest[i] != sep by {
            assert(s[i] == rest[i]);
        }
        lemma_pieces_of_plain(rest, sep);
        assert(s.last() == s[s.len() - 1]);
        assert(rest.push(s.last()) =~= s);
        assert(pieces(s, sep) =~= seq![s]);
    } else {
        assert(s =~= Seq::<char>::empty());
    }
}

/// A separator and a plain text behind it are one more piece.
proof fn lemma_one_more_piece(before: Seq<char>, w: Seq<char>, sep: char)
    requires
        forall|i: int| 0 <= i < w.len() ==> #[trigger] w[i] != sep,
    ensures
        pieces(before + seq![sep] + w, sep) == pieces(before, sep).push(w),
    decreases w.len(),
{
    let s = before + seq![sep] + w;
    if w.len() == 0 {
        assert(s =~= before + seq![sep]);
        assert(s.drop_last() =~= before);
        assert(w =~= Seq::<char>::empty());
    } else {
        let rest = w.drop_last();
        assert forall|i: int| 0 <= i < rest.len() implies #[trigger] rest[i] != sep by {
            assert(w[i] == rest[i]);
        }
        lemma_one_more_piece(before, rest, sep);
        assert(s.drop_last() =~= before + seq![sep] + rest);
        assert(s.last() == w[w.len() - 1]);
        assert(rest.push(w.last()) =~= w);
        assert(pieces(before, sep).push(rest).drop_last() =~= pieces(before, sep));
    }
}

/// Tags hold no separator and stand for what they are the tag of.
proof fn lemma_tags_read_back(c: Cell)
    ensures
        Shape::tagged(c.shape.tag_of()) == Some(c.shape),
        Toucher::named(c.toucher.name_of()) == Some(c.toucher),
        Sequence::tagged(c.sequence.tag_of()) == Some(c.sequence),
        forall|i: int| 0 <= i < c.shape.tag_of().len() ==> #[trigger] c.shape.tag_of()[i] != ':',
        forall|i: int|
            0 <= i < c.toucher.name_of().len() ==> #[trigger] c.toucher.name_of()[i] != ':',
        forall|i: int|
            0 <= i < c.sequence.tag_of().len() ==> #[trigger] c.sequence.tag_of()[i] != ':',
{
    reveal_strlit("private");
    reveal_strlit("shared");
    reveal_strlit("hvalloc");
    reveal_strlit("host");
    reveal_strlit("guest");
    reveal_strlit("inplace");
    reveal_strlit("unmap");
    reveal_strlit("unmaponly");
    assert("private"@[0] != "shared"@[0]);
    assert("private"@[0] != "hvalloc"@[0]);
    assert("shared"@[0] != "hvalloc"@[0]);
    assert("host"@[0] != "guest"@[0]);
    assert("inplace"@[0] != "unmap"@[0]);
    assert("inplace"@[0] != "unmaponly"@[0]);
    assert("unmap"@.len() != "unmaponly"@.len());
}

/// A child reads the cell that its parent wrote.
pub proof fn law_cells_read_back(c: Cell)
    ensures
        cell_of_parts(pieces(c.text_of(), ':')) == Ok::<Cell, CellError>(c),
{
    let d = decimal_of(c.size_gb as nat);
    let shape = c.shape.tag_of();
    let toucher = c.toucher.name_of();
    let sequence = c.sequence.tag_of();
    lemma_tags_read_back(c);
    lemma_decimal_reads_back(c.size_gb as nat);
    assert forall|i: int| 0 <= i < d.len() implies #[trigger] d[i] != ':' by {
        assert(crate::text::is_digit(d[i]));
    }
    reveal_strlit(":");
    assert(":"@ =~= seq![':']);
    lemma_pieces_of_plain(shape, ':');
    let two = shape + seq![':'] + toucher;
    lemma_one_more_piece(shape, toucher, ':');
    let three = two + seq![':'] + sequence;
    lemma_one_more_piece(two, sequence, ':');
    lemma_one_more_piece(three, d, ':');
    assert(c.text_of() =~= three + seq![':'] + d);
    let p = pieces(c.text_of(), ':');
    assert(p =~= seq![shape, toucher, sequence, d]);
}

/// The cells of the matrix, in order.
pub open spec fn matrix_of(size_gb: u64) -> Seq<Cell> {
    Seq::new(
        18,
        |i: int|
            Cell {
                shape: if i < 6 {
                    Shape::MmapPrivate
                } else if i < 12 {
                    Shape::MmapShared
                } else {
                    Shape::HvAllocate
                },
                toucher: if i % 6 < 3 {
                    Toucher::Host
                } else {
                    Toucher::Guest
                },
                sequence: if i % 3 == 0 {
                    Sequence::InPlace
                } else if i % 3 == 1 {
                    Sequence::UnmapFirst
                } else {
                    Sequence::UnmapOnly
                },
                size_gb,
            },
    )
}

fn push_cells(cells: &mut Vec<Cell>, shape: Shape, size_gb: u64)
    ensures
        final(cells)@ == old(cells)@ + seq![
            Cell { shape, toucher: Toucher::Host, sequence: Sequence::InPlace, size_gb },
            Cell { shape, toucher: Toucher::Host, sequence: Sequence::UnmapFirst, size_gb },
            Cell { shape, toucher: Toucher::Host, sequence: Sequence::UnmapOnly, size_gb },
            Cell { shape, toucher: Toucher::Guest, sequence: Sequence::InPlace, size_gb },
            Cell { shape, toucher: Toucher::Guest, sequence: Sequence::UnmapFirst, size_gb },
            Cell { shape, toucher: Toucher::Guest, sequence: Sequence::UnmapOnly, size_gb },
        ],
{
    cells.push(Cell { shape, toucher: Toucher::Host, sequence: Sequence::InPlace, size_gb });
    cells.push(Cell { shape, toucher: Toucher::Host, sequence: Sequence::UnmapFirst, size_gb });
    cells.push(Cell { shape, toucher: Toucher::Host, sequence: Sequence::UnmapOnly, size_gb });
    cells.push(Cell { shape, toucher: Toucher::Guest, sequence: Sequence::InPlace, size_gb });
    cells.push(Cell { shape, toucher: Toucher::Guest, sequence: Sequence::UnmapFirst, size_gb });
    cells.push(Cell { shape, toucher: Toucher::Guest, sequence: Sequence::UnmapOnly, size_gb });
}

/// The cells of the matrix, in the order they are run in.
pub fn matrix(size_gb: u64) -> (r: Vec<Cell>)
    ensures
        r@ == matrix_of(size_gb),
{
    let mut cells: Vec<Cell> = Vec::new();
    push_cells(&mut cells, Shape::MmapPrivate, size_gb);
    push_cells(&mut cells, Shape::MmapShared, size_gb);
    push_cells(&mut cells, Shape::HvAllocate, size_gb);
    assert(cells@ =~= matrix_of(size_gb));
    cells
}

/// Where a cell stands in the matrix.
pub open spec fn place_of(shape: Shape, toucher: Toucher, sequence: Sequence) -> int {
    (match shape {
        Shape::MmapPrivate => 0int,
        Shape::MmapShared => 6,
        Shape::HvAllocate => 12,
    }) + (match toucher {
        Toucher::Host => 0int,
        Toucher::Guest => 3,
    }) + (match sequence {
        Sequence::InPlace => 0int,
        Sequence::UnmapFirst => 1,
        Sequence::UnmapOnly => 2,
    })
}

/// The matrix holds every combination exactly once.
pub proof fn law_matrix_is_complete(size_gb: u64, c: Cell, i: int)
    requires
        c.size_gb == size_gb,
        0 <= i < 18,
    ensures
        0 <= place_of(c.shape, c.toucher, c.sequence) < matrix_of(size_gb).len(),
        matrix_of(size_gb)[place_of(c.shape, c.toucher, c.sequence)] == c,
        matrix_of(size_gb)[i] == c ==> i == place_of(c.shape, c.toucher, c.sequence),
{
}

/// The operations of a sequence on memory of `size` bytes: each covers all of
/// it.
pub open spec fn release_of(s: Sequence, size: u64) -> Seq<HostOp> {
    let unmap = HostOp::Stage2Unmap { gpa: RAM_GPA, len: size };
    let advise = HostOp::Advise { off: 0, len: size, advice: Advice::Reusable };
    let remap = HostOp::Stage2Map { off: 0, gpa: RAM_GPA, len: size };
    match s {
        Sequence::InPlace => seq![advise],
        Sequence::UnmapFirst => seq![unmap, advise, remap],
        Sequence::UnmapOnly => seq![unmap, remap],
    }
}

/// One step of a cell, once it was tried to allocate its memory.
#[derive(Clone, Copy, PartialEq, Eq, Structural, Debug)]
pub enum CellStep {
    /// Make a VM of the memory and a code page.
    CreateVm,
    Touch { by: Toucher },
    ReadBefore,
    Release { op: HostOp },
    ReadAfter,
    /// Print the cell's result line.
    Report,
    /// Print that the memory could not be allocated.
    ReportAllocFailed,
    DestroyVm,
}

/// The steps of a cell whose memory was or was not allocated. A shape that
/// cannot be built is an answer about the shape.
pub open spec fn cell_steps_of(c: Cell, allocated: bool) -> Seq<CellStep> {
    if allocated {
        seq![CellStep::CreateVm, CellStep::Touch { by: c.toucher }, CellStep::ReadBefore]
            + release_of(c.sequence, shifted(c.size_gb, 0x4000_0000) as u64).map_values(
            |op: HostOp| CellStep::Release { op },
        ) + seq![CellStep::ReadAfter, CellStep::Report, CellStep::DestroyVm]
    } else {
        seq![CellStep::ReportAllocFailed]
    }
}

/// The steps of a cell: touch, measure, release, measure; or only a report
/// where there is no memory.
pub fn cell_steps(c: &Cell, allocated: bool) -> (r: Vec<CellStep>)
    ensures
        r@ == cell_steps_of(*c, allocated),
{
    let mut r: Vec<CellStep> = Vec::new();
    if !allocated {
        r.push(CellStep::ReportAllocFailed);
        assert(r@ =~= cell_steps_of(*c, allocated));
        return r;
    }
    let size: u64 = c.size();
    r.push(CellStep::CreateVm);
    r.push(CellStep::Touch { by: c.toucher });
    r.push(CellStep::ReadBefore);
    if c.sequence != Sequence::InPlace {
        r.push(CellStep::Release { op: HostOp::Stage2Unmap { gpa: RAM_GPA, len: size } });
    }
    if c.sequence != Sequence::UnmapOnly {
        r.push(
            CellStep::Release {
                op: HostOp::Advise { off: 0, len: size, advice: Advice::Reusable },
            },
        );
    }
    if c.sequence != Sequence::InPlace {
        r.push(CellStep::Release { op: HostOp::Stage2Map { off: 0, gpa: RAM_GPA, len: size } });
    }
    r.push(CellStep::ReadAfter);
    r.push(CellStep::Report);
    r.push(CellStep::DestroyVm);
    assert(r@ =~= cell_steps_of(*c, allocated));
    r
}

pub open spec fn fatal(op: HostOp, ret: i32) -> bool {
    ret != 0 && !(op is Advise)
}

/// Whether what an operation of a cell returned ends the cell. That the kernel
/// rejects the advice is a result; anything else that fails is not.
pub fn is_fatal(op: &HostOp, ret: i32) -> (r: bool)
    ensures
        r == fatal(*op, ret),
{
    match *op {
        HostOp::Advise { .. } => false,
        _ => ret != 0,
    }
}

/// Between the two readings of a cell stands its release sequence and nothing
/// else.
pub proof fn law_cells_measure_the_release_alone(c: Cell)
    ensures
        ({
            let steps = cell_steps_of(c, true);
            let ops = release_of(c.sequence, shifted(c.size_gb, 0x4000_0000) as u64);
            &&& steps[2] == CellStep::ReadBefore
            &&& steps[3 + ops.len() as int] == CellStep::ReadAfter
            &&& forall|i: int|
                0 <= i < ops.len() ==> #[trigger] steps[3 + i] == (CellStep::Release { op: ops[i] })
        }),
{
}

/// The sequence that works in a cell is the one that works on guest RAM.
pub proof fn law_unmap_first_is_the_working_sequence(size: u64)
    ensures
        release_of(Sequence::UnmapFirst, size) == reclaim_ops(
            0,
            size,
            ReclaimMode::Reusable,
            Advice::Reusable,
        ),
{
    assert(release_of(Sequence::UnmapFirst, size) =~= reclaim_ops(
        0,
        size,
        ReclaimMode::Reusable,
        Advice::Reusable,
    ));
}

/// What came of the advice in a cell.
#[derive(Clone, Copy, PartialEq, Eq, Structural, Debug)]
pub enum AdviceStatus {
    /// The memory could not be allocated in this shape.
    AllocFailed,
    /// None was given.
    Skipped,
    Accepted,
    Errno { errno: i32 },
}

impl AdviceStatus {
    pub open spec fn text_of(self) -> Seq<char> {
        match self {
            AdviceStatus::AllocFailed => "alloc-failed"@,
            AdviceStatus::Skipped => "none"@,
            AdviceStatus::Accepted => "ok"@,
            AdviceStatus::Errno { errno } => "errno"@ + signed_decimal_of(errno as int),
        }
    }

    pub fn text(&self) -> (r: String)
        ensures
            r@ == self.text_of(),
    {
        match *self {
            AdviceStatus::AllocFailed => "alloc-failed".to_owned(),
            AdviceStatus::Skipped => "none".to_owned(),
            AdviceStatus::Accepted => "ok".to_owned(),
            AdviceStatus::Errno { errno } => joined("errno", signed_decimal(errno).as_str()),
        }
    }

    /// What came of the advice.
    pub open spec fn came_of(s: Sequence, rc: i32, errno: i32) -> AdviceStatus {
        if s == Sequence::UnmapOnly {
            AdviceStatus::Skipped
        } else if rc == 0 {
            AdviceStatus::Accepted
        } else {
            AdviceStatus::Errno { errno }
        }
    }

    /// The status of a sequence whose advice, where it gives one, returned
    /// `rc` and left `errno`.
    pub fn of(s: Sequence, rc: i32, errno: i32) -> (r: AdviceStatus)
        ensures
            r == AdviceStatus::came_of(s, rc, errno),
    {
        if s == Sequence::UnmapOnly {
            AdviceStatus::Skipped
        } else if rc == 0 {
            AdviceStatus::Accepted
        } else {
            AdviceStatus::Errno { errno }
        }
    }
}

/// What the line of a cell's result starts with.
pub open spec fn head_of(c: Cell, status: AdviceStatus) -> Seq<char> {
    "CELL "@ + c.shape.tag_of() + " "@ + c.toucher.name_of() + " "@ + c.sequence.tag_of() + " "@
        + status.text_of()
}

/// The start of a cell's result line; the numbers follow.
pub fn result_head(c: &Cell, status: &AdviceStatus) -> (r: String)
    ensures
        r@ == head_of(*c, *status),
{
    let mut r = "CELL ".to_owned();
    r.append(c.shape.tag());
    r.append(" ");
    r.append(c.toucher.name());
    r.append(" ");
    r.append(c.sequence.tag());
    r.append(" ");
    r.append(status.text().as_str());
    r
}

/// The result line of a cell whose memory could not be allocated.
pub fn alloc_failed_line(c: &Cell) -> (r: String)
    ensures
        r@ == head_of(*c, AdviceStatus::AllocFailed) + " 0 0 0 0"@,
{
    joined(result_head(c, &AdviceStatus::AllocFailed).as_str(), " 0 0 0 0")
}

/// The first line that is a cell's result.
pub open spec fn first_result(ls: Seq<Seq<char>>) -> Option<Seq<char>>
    decreases ls.len(),
{
    if ls.len() == 0 {
        None
    } else if stripped(ls[0], "CELL "@) is Some {
        Some(ls[0])
    } else {
        first_result(ls.drop_first())
    }
}

/// A cell's result: what came of the advice, and the numbers behind it.
pub struct CellResult {
    pub status: String,
    pub numbers: Vec<String>,
}

/// Why a child's output is no result.
#[derive(Clone, Copy, PartialEq, Eq, Structural, Debug)]
pub enum ResultError {
    /// No line is a result.
    Missing,
    /// The line has no status or no first number.
    Short,
}

/// The status and the numbers on a result line, where it has a status and a
/// number at least.
pub open spec fn fields_in(line: Seq<char>) -> Option<(Seq<char>, Seq<Seq<char>>)> {
    let ws = words_of(line);
    if ws.len() < 6 {
        None
    } else {
        Some((ws[4], ws.skip(5)))
    }
}

/// Finds the result in what a child printed.
pub fn read_result(stdout: &str) -> (r: Result<CellResult, ResultError>)
    ensures
        match first_result(lines_of(stdout@)) {
            None => r is Err && r->Err_0 == ResultError::Missing,
            Some(line) => match fields_in(line) {
                None => r is Err && r->Err_0 == ResultError::Short,
                Some((status, numbers)) => r is Ok && r->Ok_0.status@ == status && texts(
                    r->Ok_0.numbers@,
                ) == numbers,
            },
        },
{
    let ls = lines(stdout);
    let n: usize = ls.len();
    let ghost all = texts(ls@);
    let mut i: usize = 0;
    assert(all.skip(0) =~= all);
    while i < n
        invariant
            n == ls@.len(),
            i <= n,
            all == texts(ls@),
            all == lines_of(stdout@),
            first_result(all) == first_result(all.skip(i as int)),
        decreases n - i,
    {
        assert(all.skip(i as int)[0] == ls@[i as int]@);
        if strip_prefix(ls[i].as_str(), "CELL ").is_some() {
            return fields_of(ls[i].as_str());
        }
        assert(all.skip(i as int).drop_first() =~= all.skip(i + 1));
        i = i + 1;
    }
    Err(ResultError::Missing)
}

fn fields_of(line: &str) -> (r: Result<CellResult, ResultError>)
    ensures
        match fields_in(line@) {
            None => r is Err && r->Err_0 == ResultError::Short,
            Some((status, numbers)) => r is Ok && r->Ok_0.status@ == status && texts(
                r->Ok_0.numbers@,
            ) == numbers,
        },
{
    let ws = words(line);
    let ghost all = texts(ws@);
    let n: usize = ws.len();
    if n < 6 {
        return Err(ResultError::Short);
    }
    assert(all[4] == ws@[4]@);
    let status = ws[4].as_str().to_owned();
    let mut numbers: Vec<String> = Vec::new();
    let mut i: usize = 5;
    while i < n
        invariant
            n == ws@.len(),
            5 <= i <= n,
            all == texts(ws@),
            texts(numbers@) == all.subrange(5, i as int),
        decreases n - i,
    {
        let ghost before = numbers@;
        numbers.push(ws[i].as_str().to_owned());
        assert(texts(numbers@) =~= texts(before).push(ws@[i as int]@));
        assert(all.subrange(5, i + 1) =~= all.subrange(5, i as int).push(all[i as int]));
        i = i + 1;
    }
    assert(all.subrange(5, n as int) =~= all.skip(5));
    Ok(CellResult { status, numbers })
}

/// Whether a cell's memory was released.
#[derive(Clone, Copy, PartialEq, Eq, Structural, Debug)]
pub enum Release {
    /// The cell was never charged for the memory, so it says nothing.
    NotCharged,
    Yes,
    No,
}

impl Release {
    /// The judgement.
    pub open spec fn judged(charged: bool, dropped: bool) -> Release {
        if !charged {
            Release::NotCharged
        } else if dropped {
            Release::Yes
        } else {
            Release::No
        }
    }

    /// The judgement of a cell: whether it was charged for the memory, and
    /// whether the ledger moved by most of that.
    pub fn judge(charged: bool, dropped: bool) -> (r: Release)
        ensures
            r == Release::judged(charged, dropped),
    {
        if !charged {
            Release::NotCharged
        } else if dropped {
            Release::Yes
        } else {
            Release::No
        }
    }

    pub open spec fn label_of(self) -> Seq<char> {
        match self {
            Release::NotCharged => "n/a"@,
            Release::Yes => "YES"@,
            Release::No => "no"@,
        }
    }

    pub fn label(&self) -> (r: &'static str)
        ensures
            r@ == self.label_of(),
    {
        match *self {
            Release::NotCharged => "n/a",
            Release::Yes => "YES",
            Release::No => "no",
        }
    }
}

/// A judged cell.
#[derive(Clone, Copy, PartialEq, Eq, Structural, Debug)]
pub struct Judged {
    pub shape: Shape,
    pub toucher: Toucher,
    pub sequence: Sequence,
    pub release: Release,
}

/// Where the first judged cell of a kind stands.
pub open spec fn first_at(
    rows: Seq<Judged>,
    shape: Shape,
    toucher: Toucher,
    sequence: Sequence,
) -> Option<int>
    decreases rows.len(),
{
    if rows.len() == 0 {
        None
    } else {
        match first_at(rows.drop_last(), shape, toucher, sequence) {
            Some(i) => Some(i),
            None => {
                let last = rows.last();
                if last.shape == shape && last.toucher == toucher && last.sequence == sequence {
                    Some(rows.len() - 1)
                } else {
                    None
                }
            },
        }
    }
}

/// Finds the first judged cell of a kind.
pub fn find(rows: &Vec<Judged>, shape: Shape, toucher: Toucher, sequence: Sequence) -> (r: Option<
    usize,
>)
    ensures
        match first_at(rows@, shape, toucher, sequence) {
            Some(i) => r is Some && r->0 == i && i < rows@.len(),
            None => r is None,
        },
{
    let n: usize = rows.len();
    let mut found: Option<usize> = None;
    let mut i: usize = 0;
    assert(rows@.take(0) =~= Seq::<Judged>::empty());
    while i < n
        invariant
            n == rows@.len(),
            i <= n,
            match first_at(rows@.take(i as int), shape, toucher, sequence) {
                Some(k) => found is Some && found->0 == k && k < n,
                None => found is None,
            },
        decreases n - i,
    {
        assert(rows@.take(i + 1).drop_last() =~= rows@.take(i as int));
        let row = rows[i];
        if found.is_none() && row.shape == shape && row.toucher == toucher && row.sequence
            == sequence {
            found = Some(i);
        }
        i = i + 1;
    }
    assert(rows@.take(n as int) =~= rows@);
    found
}

/// What the matrix says.
#[derive(Clone, Copy, PartialEq, Eq, Structural, Debug)]
pub struct ShapeVerdict {
    /// Advice in place releases guest-touched pages in at least one shape.
    pub shape_matters: bool,
    /// Memory of Apple's allocator can be released by at least one sequence.
    pub hv_releases: bool,
    /// The advice is not what releases guest memory: unmapping alone does,
    /// and does nothing for host-touched pages.
    pub advice_is_idle: bool,
}

pub open spec fn in_place_released(row: Judged) -> bool {
    row.toucher == Toucher::Guest && row.sequence == Sequence::InPlace && row.release
        == Release::Yes
}

pub open spec fn hv_released(row: Judged) -> bool {
    row.shape == Shape::HvAllocate && row.release == Release::Yes
}

/// Whether the first judged cell of a kind was released.
pub open spec fn released(
    rows: Seq<Judged>,
    shape: Shape,
    toucher: Toucher,
    sequence: Sequence,
) -> bool {
    match first_at(rows, shape, toucher, sequence) {
        Some(i) => rows[i].release == Release::Yes,
        None => false,
    }
}

/// Whether the cells that the verdict speaks of are all there.
pub open spec fn decisive(rows: Seq<Judged>) -> bool {
    &&& first_at(rows, Shape::HvAllocate, Toucher::Guest, Sequence::InPlace) is Some
    &&& first_at(rows, Shape::MmapPrivate, Toucher::Guest, Sequence::UnmapFirst) is Some
    &&& first_at(rows, Shape::MmapPrivate, Toucher::Guest, Sequence::UnmapOnly) is Some
    &&& first_at(rows, Shape::MmapPrivate, Toucher::Host, Sequence::UnmapOnly) is Some
}

fn was_released(rows: &Vec<Judged>, shape: Shape, toucher: Toucher, sequence: Sequence) -> (r: Option<
    bool,
>)
    ensures
        r is Some <==> first_at(rows@, shape, toucher, sequence) is Some,
        r is Some ==> r->0 == released(rows@, shape, toucher, sequence),
{
    match find(rows, shape, toucher, sequence) {
        Some(i) => Some(rows[i].release == Release::Yes),
        None => None,
    }
}

/// Whether advice in place released guest-touched pages in some shape.
pub open spec fn advice_alone_releases(rows: Seq<Judged>) -> bool {
    exists|i: int| 0 <= i < rows.len() && in_place_released(#[trigger] rows[i])
}

/// Whether memory of Apple's allocator was released at all.
pub open spec fn allocator_releases(rows: Seq<Judged>) -> bool {
    exists|i: int| 0 <= i < rows.len() && hv_released(#[trigger] rows[i])
}

/// Whether unmapping alone released what the guest touched, as unmapping with
/// the advice did, and nothing that the host touched.
pub open spec fn unmap_alone_suffices(rows: Seq<Judged>) -> bool {
    let private = Shape::MmapPrivate;
    &&& released(rows, private, Toucher::Guest, Sequence::UnmapOnly)
    &&& released(rows, private, Toucher::Guest, Sequence::UnmapFirst)
    &&& !released(rows, private, Toucher::Host, Sequence::UnmapOnly)
}

/// Judges the matrix, if the cells that decide are there.
pub fn verdict(rows: &Vec<Judged>) -> (r: Option<ShapeVerdict>)
    ensures
        r is Some <==> decisive(rows@),
        r is Some ==> {
            let v = r->0;
            &&& v.shape_matters <==> advice_alone_releases(rows@)
            &&& v.hv_releases <==> allocator_releases(rows@)
            &&& v.advice_is_idle <==> unmap_alone_suffices(rows@)
        },
{
    let hv = was_released(rows, Shape::HvAllocate, Toucher::Guest, Sequence::InPlace);
    let with_advice = was_released(
        rows,
        Shape::MmapPrivate,
        Toucher::Guest,
        Sequence::UnmapFirst,
    );
    let without = was_released(rows, Shape::MmapPrivate, Toucher::Guest, Sequence::UnmapOnly);
    let host_only = was_released(rows, Shape::MmapPrivate, Toucher::Host, Sequence::UnmapOnly);
    if hv.is_none() {
        return None;
    }
    let n: usize = rows.len();
    let mut shape_matters = false;
    let mut hv_releases = false;
    let mut i: usize = 0;
    while i < n
        invariant
            n == rows@.len(),
            i <= n,
            shape_matters <==> exists|j: int|
                0 <= j < i && in_place_released(#[trigger] rows@[j]),
            hv_releases <==> exists|j: int| 0 <= j < i && hv_released(#[trigger] rows@[j]),
        decreases n - i,
    {
        let row = rows[i];
        if row.release == Release::Yes {
            if row.toucher == Toucher::Guest && row.sequence == Sequence::InPlace {
                assert(in_place_released(rows@[i as int]));
                shape_matters = true;
            }
            if row.shape == Shape::HvAllocate {
                assert(hv_released(rows@[i as int]));
                hv_releases = true;
            }
        }
        i = i + 1;
    }
    match (with_advice, without, host_only) {
        (Some(advised), Some(unmapped), Some(host)) => Some(
            ShapeVerdict { shape_matters, hv_releases, advice_is_idle: unmapped && advised && !host },
        ),
        _ => None,
    }
}

/// A matrix that was run whole, in any judgement, is decisive.
pub proof fn law_whole_matrix_is_decisive(size_gb: u64, rows: Seq<Judged>)
    requires
        rows.len() == matrix_of(size_gb).len(),
        forall|i: int|
            0 <= i < rows.len() ==> (#[trigger] rows[i]).shape == matrix_of(size_gb)[i].shape
                && rows[i].toucher == matrix_of(size_gb)[i].toucher && rows[i].sequence
                == matrix_of(size_gb)[i].sequence,
    ensures
        decisive(rows),
{
    lemma_present(rows, place_of(Shape::HvAllocate, Toucher::Guest, Sequence::InPlace));
    lemma_present(rows, place_of(Shape::MmapPrivate, Toucher::Guest, Sequence::UnmapFirst));
    lemma_present(rows, place_of(Shape::MmapPrivate, Toucher::Guest, Sequence::UnmapOnly));
    lemma_present(rows, place_of(Shape::MmapPrivate, Toucher::Host, Sequence::UnmapOnly));
}

/// A cell that is there is found.
proof fn lemma_present(rows: Seq<Judged>, i: int)
    requires
        0 <= i < rows.len(),
    ensures
        first_at(rows, rows[i].shape, rows[i].toucher, rows[i].sequence) is Some,
    decreases rows.len(),
{
    if i < rows.len() - 1 {
        assert(rows.drop_last()[i] == rows[i]);
        lemma_present(rows.drop_last(), i);
    }
}

/// The three sequences differ by what they leave out: the advice alone is the
/// middle of the full sequence, and the full sequence without it is the unmap
/// and the remap. Every operation covers all of the memory.
pub proof fn law_sequences_leave_out_one_thing(size: u64)
    ensures
        ({
            let full = release_of(Sequence::UnmapFirst, size);
            &&& full.len() == 3
            &&& release_of(Sequence::InPlace, size) == seq![full[1]]
            &&& release_of(Sequence::UnmapOnly, size) == seq![full[0], full[2]]
            &&& full[1] == (HostOp::Advise { off: 0, len: size, advice: Advice::Reusable })
            &&& full[0] == (HostOp::Stage2Unmap { gpa: RAM_GPA, len: size })
            &&& full[2] == (HostOp::Stage2Map { off: 0, gpa: RAM_GPA, len: size })
        }),
{
}

/// A cell whose memory is there makes a VM of it, has it touched once and by
/// whom the cell names, and reports after the second reading, before the VM
/// goes. One whose memory is not there does nothing but say so.
pub proof fn law_cells_do_what_they_are_called(c: Cell, i: int)
    requires
        0 <= i < cell_steps_of(c, true).len(),
    ensures
        ({
            let steps = cell_steps_of(c, true);
            let n = steps.len() as int;
            &&& steps[0] == CellStep::CreateVm
            &&& steps[1] == (CellStep::Touch { by: c.toucher })
            &&& steps[i] is Touch ==> i == 1
            &&& steps[i] == CellStep::ReadBefore <==> i == 2
            &&& steps[i] == CellStep::ReadAfter <==> i == n - 3
            &&& steps[i] == CellStep::Report <==> i == n - 2
            &&& steps[i] == CellStep::DestroyVm <==> i == n - 1
            &&& steps[i] != CellStep::ReportAllocFailed
            &&& steps[i] is Release <==> 2 < i < n - 3
            &&& steps[i] == CellStep::CreateVm ==> i == 0
        }),
        cell_steps_of(c, false) == seq![CellStep::ReportAllocFailed],
{
}

/// Advice that is rejected is a result; any other operation that fails is fatal,
/// and what succeeds never is.
pub proof fn law_only_rejected_advice_is_a_result(size: u64, s: Sequence, i: int, ret: i32)
    requires
        0 <= i < release_of(s, size).len(),
    ensures
        fatal(release_of(s, size)[i], 0) == false,
        ret != 0 ==> (fatal(release_of(s, size)[i], ret) <==> release_of(s, size)[i] is Stage2Unmap
            || release_of(s, size)[i] is Stage2Map),
{
}

/// The status is that of the advice: skipped exactly if the sequence has none,
/// accepted exactly if it has one that returned zero, and else the error that
/// was left.
pub proof fn law_the_status_is_that_of_the_advice(s: Sequence, size: u64, rc: i32, errno: i32)
    ensures
        ({
            let advises = exists|i: int|
                0 <= i < release_of(s, size).len() && #[trigger] release_of(s, size)[i] is Advise;
            match AdviceStatus::came_of(s, rc, errno) {
                AdviceStatus::Skipped => !advises,
                AdviceStatus::Accepted => advises && rc == 0,
                AdviceStatus::Errno { errno: left } => advises && rc != 0 && left == errno,
                AdviceStatus::AllocFailed => false,
            }
        }),
{
    match s {
        Sequence::InPlace => {
            assert(release_of(s, size)[0] is Advise);
        },
        Sequence::UnmapFirst => {
            assert(release_of(s, size)[1] is Advise);
        },
        Sequence::UnmapOnly => {},
    }
}

/// Memory that was never charged says nothing; of memory that was, it is said
/// whether most of the charge went.
pub proof fn law_judgements_need_a_charge(charged: bool, dropped: bool)
    ensures
        Release::judged(charged, dropped) == Release::NotCharged <==> !charged,
        Release::judged(charged, dropped) == Release::Yes <==> charged && dropped,
        Release::judged(charged, dropped) == Release::No <==> charged && !dropped,
{
}

/// The first row of a kind is found: none before it is of that kind, and none
/// at all where none is found.
pub proof fn law_the_first_row_of_a_kind_is_found(
    rows: Seq<Judged>,
    shape: Shape,
    toucher: Toucher,
    sequence: Sequence,
)
    ensures
        match first_at(rows, shape, toucher, sequence) {
            Some(i) => {
                &&& 0 <= i < rows.len()
                &&& rows[i].shape == shape && rows[i].toucher == toucher && rows[i].sequence
                    == sequence
                &&& forall|j: int|
                    0 <= j < i ==> !((#[trigger] rows[j]).shape == shape && rows[j].toucher == toucher
                        && rows[j].sequence == sequence)
                &&& released(rows, shape, toucher, sequence) <==> rows[i].release == Release::Yes
            },
            None => {
                &&& forall|j: int|
                    0 <= j < rows.len() ==> !((#[trigger] rows[j]).shape == shape && rows[j].toucher
                        == toucher && rows[j].sequence == sequence)
                &&& !released(rows, shape, toucher, sequence)
            },
        },
    decreases rows.len(),
{
    if rows.len() > 0 {
        let rest = rows.drop_last();
        law_the_first_row_of_a_kind_is_found(rest, shape, toucher, sequence);
        assert(forall|j: int| 0 <= j < rest.len() ==> #[trigger] rest[j] == rows[j]);
        assert forall|j: int|
            0 <= j < rows.len() && first_at(rows, shape, toucher, sequence) is None implies !((
        #[trigger] rows[j]).shape == shape && rows[j].toucher == toucher && rows[j].sequence
            == sequence) by {
            if j < rest.len() {
                assert(rest[j] == rows[j]);
            }
        }
        match first_at(rest, shape, toucher, sequence) {
            Some(i) => {
                assert(rest[i] == rows[i]);
                assert forall|j: int| 0 <= j < i implies !((#[trigger] rows[j]).shape == shape
                    && rows[j].toucher == toucher && rows[j].sequence == sequence) by {
                    assert(rest[j] == rows[j]);
                }
            },
            None => {
                assert forall|j: int| 0 <= j < rest.len() implies !((#[trigger] rows[j]).shape
                    == shape && rows[j].toucher == toucher && rows[j].sequence == sequence) by {
                    assert(rest[j] == rows[j]);
                }
            },
        }
    }
}

/// Shape matters by a row that shows release of guest-touched pages though its
/// sequence never unmapped them, in whatever shape. Apple's allocator releases
/// by a row of its own shape that shows release, whoever touched the pages and
/// by whatever sequence.
pub proof fn law_rows_count_for_what_they_show(row: Judged, size: u64)
    ensures
        in_place_released(row) <==> row.release == Release::Yes && row.toucher == Toucher::Guest
            && !(release_of(row.sequence, size)[0] is Stage2Unmap),
        hv_released(row) <==> row.release == Release::Yes && row.shape == Shape::HvAllocate,
{
}

/// A word behind a blank is one more word.
proof fn lemma_one_more_field(line: Seq<char>, w: Seq<char>)
    requires
        line.len() > 0,
        !white_space(line.last()),
        w.len() > 0,
        forall|i: int| 0 <= i < w.len() ==> !white_space(#[trigger] w[i]),
    ensures
        words_of(line + " "@ + w) == words_of(line).push(w),
        (line + " "@ + w).len() > 0,
        !white_space((line + " "@ + w).last()),
{
    reveal_strlit(" ");
    let before = line + " "@;
    assert(before.drop_last() =~= line);
    assert(before.last() == ' ');
    lemma_one_more_word(before, w);
    assert((before + w).last() == w[w.len() - 1]);
}

/// Whether a text is one word.
pub open spec fn is_word(w: Seq<char>) -> bool {
    &&& w.len() > 0
    &&& forall|i: int| 0 <= i < w.len() ==> !white_space(#[trigger] w[i])
}

proof fn lemma_tags_are_words(c: Cell, status: AdviceStatus)
    ensures
        is_word(c.shape.tag_of()),
        is_word(c.toucher.name_of()),
        is_word(c.sequence.tag_of()),
        is_word(status.text_of()),
        is_word("CELL"@),
{
    reveal_strlit("CELL");
    reveal_strlit("private");
    reveal_strlit("shared");
    reveal_strlit("hvalloc");
    reveal_strlit("host");
    reveal_strlit("guest");
    reveal_strlit("inplace");
    reveal_strlit("unmap");
    reveal_strlit("unmaponly");
    reveal_strlit("alloc-failed");
    reveal_strlit("none");
    reveal_strlit("ok");
    reveal_strlit("errno");
    reveal_strlit("-");
    if let AdviceStatus::Errno { errno } = status {
        let n = if errno < 0 {
            -errno as int
        } else {
            errno as int
        };
        let d = decimal_of(n as nat);
        lemma_decimal_reads_back(n as nat);
        assert forall|i: int| 0 <= i < d.len() implies !white_space(#[trigger] d[i]) by {
            assert(crate::text::is_digit(d[i]));
        }
        let t = status.text_of();
        let tail = signed_decimal_of(errno as int);
        assert forall|i: int| 0 <= i < tail.len() implies !white_space(#[trigger] tail[i]) by {
            if errno < 0 && i > 0 {
                assert(tail[i] == d[i - 1]);
            }
        }
        assert forall|i: int| 0 <= i < t.len() implies !white_space(#[trigger] t[i]) by {
            if i >= 5 {
                assert(t[i] == tail[i - 5]);
            }
        }
    }
}

/// A result line with its four numbers reads back: it is found, its status is
/// the fifth word and the numbers are the rest, in order.
pub proof fn law_result_lines_read_back(
    c: Cell,
    status: AdviceStatus,
    a: Seq<char>,
    b: Seq<char>,
    d: Seq<char>,
    e: Seq<char>,
)
    requires
        is_word(a),
        is_word(b),
        is_word(d),
        is_word(e),
    ensures
        ({
            let line = head_of(c, status) + " "@ + a + " "@ + b + " "@ + d + " "@ + e;
            &&& stripped(line, "CELL "@) is Some
            &&& words_of(line) == seq![
                "CELL"@,
                c.shape.tag_of(),
                c.toucher.name_of(),
                c.sequence.tag_of(),
                status.text_of(),
                a,
                b,
                d,
                e,
            ]
            &&& fields_in(line) == Some((status.text_of(), seq![a, b, d, e]))
            &&& fields_in(head_of(c, status) + " "@ + a) == Some((status.text_of(), seq![a]))
            &&& fields_in(head_of(c, status)) is None
        }),
{
    reveal_strlit("CELL ");
    reveal_strlit("CELL");
    reveal_strlit(" ");
    lemma_tags_are_words(c, status);
    let none = Seq::<char>::empty();
    lemma_one_more_word(none, "CELL"@);
    assert(none + "CELL"@ =~= "CELL"@);
    assert("CELL "@ =~= "CELL"@ + " "@);
    assert(words_of("CELL"@) =~= seq!["CELL"@]);
    let l1 = "CELL"@ + " "@ + c.shape.tag_of();
    lemma_one_more_field("CELL"@, c.shape.tag_of());
    let l2 = l1 + " "@ + c.toucher.name_of();
    lemma_one_more_field(l1, c.toucher.name_of());
    let l3 = l2 + " "@ + c.sequence.tag_of();
    lemma_one_more_field(l2, c.sequence.tag_of());
    let l4 = l3 + " "@ + status.text_of();
    lemma_one_more_field(l3, status.text_of());
    assert(head_of(c, status) =~= l4);
    lemma_one_more_field(l4, a);
    lemma_one_more_field(l4 + " "@ + a, b);
    lemma_one_more_field(l4 + " "@ + a + " "@ + b, d);
    lemma_one_more_field(l4 + " "@ + a + " "@ + b + " "@ + d, e);
    let line = l4 + " "@ + a + " "@ + b + " "@ + d + " "@ + e;
    assert(line.take(5) =~= "CELL "@);
    let one = words_of(l4 + " "@ + a);
    assert(words_of(l4).len() == 5);
    assert(one.skip(5) =~= seq![a]);
    assert(words_of(line).skip(5) =~= seq![a, b, d, e]);
    assert(words_of(line) =~= seq![
        "CELL"@,
        c.shape.tag_of(),
        c.toucher.name_of(),
        c.sequence.tag_of(),
        status.text_of(),
        a,
        b,
        d,
        e,
    ]);
}

/// The result is the first line that starts like one, whatever stands before
/// it.
pub proof fn law_the_first_result_line_counts(before: Seq<Seq<char>>, line: Seq<char>, after: Seq<
    Seq<char>,
>)
    requires
        forall|i: int| 0 <= i < before.len() ==> stripped(#[trigger] before[i], "CELL "@) is None,
    ensures
        stripped(line, "CELL "@) is Some ==> first_result(before + seq![line] + after) == Some(line),
        first_result(before) is None,
    decreases before.len(),
{
    let all = before + seq![line] + after;
    if before.len() > 0 {
        let rest = before.drop_first();
        assert(stripped(before[0], "CELL "@) is None);
        assert(all[0] == before[0]);
        assert forall|i: int| 0 <= i < rest.len() implies stripped(#[trigger] rest[i], "CELL "@)
            is None by {
            assert(stripped(before[i + 1], "CELL "@) is None);
        }
        law_the_first_result_line_counts(rest, line, after);
        assert(all.drop_first() =~= rest + seq![line] + after);
    } else {
        assert(all[0] == line);
    }
}

/// What a matrix that was run whole says, by its eighteen cells: shape matters
/// if one of the three guest-touched cells with the advice in place was
/// released; the allocator releases if one of its six was; the advice is idle
/// if unmapping alone and with the advice both released what the guest touched
/// in private memory, and unmapping alone nothing that the host touched.
pub proof fn law_the_verdict_of_a_whole_matrix(size_gb: u64, rows: Seq<Judged>)
    requires
        rows.len() == matrix_of(size_gb).len(),
        forall|i: int|
            0 <= i < rows.len() ==> (#[trigger] rows[i]).shape == matrix_of(size_gb)[i].shape
                && rows[i].toucher == matrix_of(size_gb)[i].toucher && rows[i].sequence
                == matrix_of(size_gb)[i].sequence,
    ensures
        ({
            let yes = |shape: Shape, toucher: Toucher, sequence: Sequence|
                rows[place_of(shape, toucher, sequence)].release == Release::Yes;
            &&& advice_alone_releases(rows) <==> exists|shape: Shape| #[trigger]
                yes(shape, Toucher::Guest, Sequence::InPlace)
            &&& allocator_releases(rows) <==> exists|toucher: Toucher, sequence: Sequence|
                #[trigger] yes(Shape::HvAllocate, toucher, sequence)
            &&& unmap_alone_suffices(rows) <==> yes(
                Shape::MmapPrivate,
                Toucher::Guest,
                Sequence::UnmapOnly,
            ) && yes(Shape::MmapPrivate, Toucher::Guest, Sequence::UnmapFirst) && !yes(
                Shape::MmapPrivate,
                Toucher::Host,
                Sequence::UnmapOnly,
            )
        }),
{
    let yes = |shape: Shape, toucher: Toucher, sequence: Sequence|
        rows[place_of(shape, toucher, sequence)].release == Release::Yes;
    if advice_alone_releases(rows) {
        let i = choose|i: int| 0 <= i < rows.len() && in_place_released(#[trigger] rows[i]);
        lemma_place(size_gb, rows, i);
        assert(yes(rows[i].shape, Toucher::Guest, Sequence::InPlace));
    }
    if allocator_releases(rows) {
        let i = choose|i: int| 0 <= i < rows.len() && hv_released(#[trigger] rows[i]);
        lemma_place(size_gb, rows, i);
        assert(yes(Shape::HvAllocate, rows[i].toucher, rows[i].sequence));
    }
    assert forall|shape: Shape| #[trigger]
        yes(shape, Toucher::Guest, Sequence::InPlace) implies advice_alone_releases(rows) by {
        let i = place_of(shape, Toucher::Guest, Sequence::InPlace);
        lemma_cell_at(size_gb, rows, shape, Toucher::Guest, Sequence::InPlace);
        assert(in_place_released(rows[i]));
    }
    assert forall|toucher: Toucher, sequence: Sequence| #[trigger]
        yes(Shape::HvAllocate, toucher, sequence) implies allocator_releases(rows) by {
        let i = place_of(Shape::HvAllocate, toucher, sequence);
        lemma_cell_at(size_gb, rows, Shape::HvAllocate, toucher, sequence);
        assert(hv_released(rows[i]));
    }
    lemma_cell_at(size_gb, rows, Shape::MmapPrivate, Toucher::Guest, Sequence::UnmapOnly);
    lemma_cell_at(size_gb, rows, Shape::MmapPrivate, Toucher::Guest, Sequence::UnmapFirst);
    lemma_cell_at(size_gb, rows, Shape::MmapPrivate, Toucher::Host, Sequence::UnmapOnly);
}

/// A row of a whole matrix stands at its place.
proof fn lemma_place(size_gb: u64, rows: Seq<Judged>, i: int)
    requires
        rows.len() == matrix_of(size_gb).len(),
        forall|i: int|
            0 <= i < rows.len() ==> (#[trigger] rows[i]).shape == matrix_of(size_gb)[i].shape
                && rows[i].toucher == matrix_of(size_gb)[i].toucher && rows[i].sequence
                == matrix_of(size_gb)[i].sequence,
        0 <= i < rows.len(),
    ensures
        i == place_of(rows[i].shape, rows[i].toucher, rows[i].sequence),
{
    law_matrix_is_complete(size_gb, matrix_of(size_gb)[i], i);
}

/// At a cell's place stands that cell, and it is the first of its kind.
proof fn lemma_cell_at(
    size_gb: u64,
    rows: Seq<Judged>,
    shape: Shape,
    toucher: Toucher,
    sequence: Sequence,
)
    requires
        rows.len() == matrix_of(size_gb).len(),
        forall|i: int|
            0 <= i < rows.len() ==> (#[trigger] rows[i]).shape == matrix_of(size_gb)[i].shape
                && rows[i].toucher == matrix_of(size_gb)[i].toucher && rows[i].sequence
                == matrix_of(size_gb)[i].sequence,
    ensures
        ({
            let i = place_of(shape, toucher, sequence);
            &&& 0 <= i < rows.len()
            &&& rows[i].shape == shape && rows[i].toucher == toucher && rows[i].sequence == sequence
            &&& first_at(rows, shape, toucher, sequence) == Some(i)
        }),
{
    let c = Cell { shape, toucher, sequence, size_gb };
    let i = place_of(shape, toucher, sequence);
    law_matrix_is_complete(size_gb, c, 0);
    law_the_first_row_of_a_kind_is_found(rows, shape, toucher, sequence);
    assert(rows[i].shape == shape);
    let k = first_at(rows, shape, toucher, sequence)->0;
    lemma_place(size_gb, rows, k);
}

/// One more row can only add to what the rows show, and adds exactly what it
/// shows itself; no rows show nothing.
pub proof fn law_every_row_is_heard(rows: Seq<Judged>, row: Judged)
    ensures
        advice_alone_releases(rows.push(row)) <==> advice_alone_releases(rows)
            || in_place_released(row),
        allocator_releases(rows.push(row)) <==> allocator_releases(rows) || hv_released(row),
        !advice_alone_releases(Seq::empty()) && !allocator_releases(Seq::empty()),
{
    let more = rows.push(row);
    assert(more[rows.len() as int] == row);
    assert forall|i: int| 0 <= i < rows.len() implies #[trigger] rows[i] == more[i] by {}
}

}
