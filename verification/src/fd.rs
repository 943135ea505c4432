//! The file-descriptor table of a task.

use vstd::prelude::*;

verus! {

/// A reference to a file object that descriptors share: one of the three
/// standard streams, or an open file by its number.
#[derive(Clone, Copy, Debug, PartialEq, Eq, Structural)]
pub enum FileRef {
    Stdin,
    Stdout,
    Stderr,
    Open(usize),
}

impl FileRef {
    /// Whether the file object can be read: not standard output or error.
    pub open spec fn spec_readable(self) -> bool {
        self == FileRef::Stdin || self is Open
    }

    /// Whether the file object can be written: not standard input.
    pub open spec fn spec_writable(self) -> bool {
        self == FileRef::Stdout || self == FileRef::Stderr || self is Open
    }

    /// Whether the standard stream can be read; an open file says for itself.
    pub fn readable(&self) -> (r: bool)
        ensures
            r == self.spec_readable(),
    {
        match self {
            FileRef::Stdin => true,
            FileRef::Stdout => false,
            FileRef::Stderr => false,
            FileRef::Open(_) => true,
        }
    }

    /// Whether the standard stream can be written; an open file says for itself.
    pub fn writable(&self) -> (r: bool)
        ensures
            r == self.spec_writable(),
    {
        match self {
            FileRef::Stdin => false,
            FileRef::Stdout => true,
            FileRef::Stderr => true,
            FileRef::Open(_) => true,
        }
    }

    /// No file object can be executed.
    pub fn executable(&self) -> (r: bool)
        ensures
            !r,
    {
        false
    }
}

/// The descriptors of a task: slot `fd` holds the file that descriptor `fd`
/// refers to, or nothing.
#[derive(Clone, Debug)]
pub struct FdList(pub Vec<Option<FileRef>>);

/// The smallest index from `from` on that is free in `slots`: one whose slot
/// is empty, or the first one past the end.
pub open spec fn spec_first_free(slots: Seq<Option<FileRef>>, from: int) -> int
    decreases slots.len() - from,
{
    if from < 0 || from >= slots.len() {
        from
    } else if slots[from].is_none() {
        from
    } else {
        spec_first_free(slots, from + 1)
    }
}

/// The slots after `file` has been stored at `at`: an empty slot is filled;
/// past the end, the slots are extended with empty ones up to `at`.
pub open spec fn spec_stored(slots: Seq<Option<FileRef>>, at: int, file: FileRef) -> Seq<
    Option<FileRef>,
> {
    if at < slots.len() {
        slots.update(at, Some(file))
    } else {
        slots + Seq::new((at - slots.len()) as nat, |i: int| None::<FileRef>) + seq![Some(file)]
    }
}

/// The index that `spec_first_free` gives is free, and every index between
/// `from` and it is taken.
pub proof fn lemma_first_free(slots: Seq<Option<FileRef>>, from: int)
    requires
        0 <= from,
    ensures
        spec_first_free(slots, from) >= from,
        spec_first_free(slots, from) >= slots.len() || slots[spec_first_free(slots, from)].is_none(),
        from <= slots.len() ==> spec_first_free(slots, from) <= slots.len(),
        forall|j: int|
            from <= j < spec_first_free(slots, from) ==> j < slots.len() && (#[trigger] slots[j]).is_some(),
    decreases slots.len() - from,
{
    if from < slots.len() && slots[from].is_some() {
        lemma_first_free(slots, from + 1);
    }
}

/// After descriptor `fd` is closed, the next allocation returns `fd` or a
/// smaller descriptor that was free before; it returns `fd` where every
/// smaller descriptor is taken.
pub proof fn lemma_close_then_alloc(slots: Seq<Option<FileRef>>, fd: int)
    requires
        0 <= fd < slots.len(),
    ensures
        spec_first_free(slots.update(fd, None), 0) == (if spec_first_free(slots, 0) < fd {
            spec_first_free(slots, 0)
        } else {
            fd
        }),
        (forall|j: int| 0 <= j < fd ==> (#[trigger] slots[j]).is_some()) ==> spec_first_free(
            slots.update(fd, None),
            0,
        ) == fd,
{
    lemma_first_free(slots, 0);
    lemma_first_free_upto(slots, slots.update(fd, None), 0, fd);
}

/// Two lists of slots that agree below `upto` have the same first free index
/// from `from` on, where it lies below `upto`; where the first list has none
/// below `upto` and the second is free at `upto`, the second gives `upto`.
pub proof fn lemma_first_free_upto(
    a: Seq<Option<FileRef>>,
    b: Seq<Option<FileRef>>,
    from: int,
    upto: int,
)
    requires
        0 <= from <= upto < a.len(),
        a.len() == b.len(),
        forall|j: int| 0 <= j < upto ==> a[j] == b[j],
        b[upto].is_none(),
    ensures
        spec_first_free(b, from) == (if spec_first_free(a, from) < upto {
            spec_first_free(a, from)
        } else {
            upto
        }),
    decreases upto - from,
{
    if from < upto {
        assert(a[from] == b[from]);
        if a[from].is_some() {
            lemma_first_free_upto(a, b, from + 1, upto);
        }
    } else {
        lemma_first_free(a, from);
    }
}

impl FdList {
    /// The slots of the table.
    pub open spec fn view(&self) -> Seq<Option<FileRef>> {
        self.0@
    }

    /// The file that descriptor `fd` refers to.
    pub open spec fn spec_query(&self, fd: int) -> Option<FileRef> {
        if 0 <= fd < self@.len() {
            self@[fd]
        } else {
            None
        }
    }

    /// The table of a new task: the three standard streams at 0, 1 and 2.
    pub fn new() -> (t: Self)
        ensures
            t@ == seq![Some(FileRef::Stdin), Some(FileRef::Stdout), Some(FileRef::Stderr)],
    {
        let mut slots: Vec<Option<FileRef>> = Vec::new();
        slots.push(Some(FileRef::Stdin));
        slots.push(Some(FileRef::Stdout));
        slots.push(Some(FileRef::Stderr));
        assert(slots@ =~= seq![Some(FileRef::Stdin), Some(FileRef::Stdout), Some(FileRef::Stderr)]);
        FdList(slots)
    }

    /// Number of slots.
    pub fn len(&self) -> (n: usize)
        ensures
            n == self@.len(),
    {
        self.0.len()
    }

    /// The file that descriptor `fd` refers to.
    pub fn query_fd(&self, fd: usize) -> (r: Option<FileRef>)
        ensures
            r == self.spec_query(fd as int),
    {
        if fd < self.0.len() {
            self.0[fd]
        } else {
            None
        }
    }

    /// Stores `file` at the smallest free descriptor and returns it.
    pub fn alloc_fd(&mut self, file: FileRef) -> (fd: usize)
        requires
            old(self)@.len() < usize::MAX,
        ensures
            fd == spec_first_free(old(self)@, 0),
            final(self)@ == spec_stored(old(self)@, fd as int, file),
    {
        self.alloc_hint(0, file)
    }

    /// Stores `file` at the smallest free descriptor that is not below
    /// `hint` and returns it.
    pub fn alloc_hint(&mut self, hint: usize, file: FileRef) -> (fd: usize)
        requires
            hint < usize::MAX,
            old(self)@.len() < usize::MAX,
        ensures
            fd == spec_first_free(old(self)@, hint as int),
            final(self)@ == spec_stored(old(self)@, fd as int, file),
    {
        if hint < self.0.len() {
            let mut fd: usize = hint;
            while fd < self.0.len()
                invariant
                    hint <= fd <= self.0@.len(),
                    self.0@ == old(self).0@,
                    spec_first_free(self.0@, hint as int) == spec_first_free(self.0@, fd as int),
                decreases self.0@.len() - fd,
            {
                if self.0[fd].is_none() {
                    self.0[fd] = Some(file);
                    return fd;
                }
                fd += 1;
            }
            self.0.push(Some(file));
            assert(self.0@ =~= spec_stored(old(self)@, fd as int, file));
            fd
        } else {
            let skip_count: usize = hint - self.0.len();
            let mut k: usize = 0;
            while k < skip_count
                invariant
                    k <= skip_count,
                    skip_count == hint - old(self).0@.len(),
                    hint < usize::MAX,
                    self.0@ == old(self).0@ + Seq::new(k as nat, |i: int| None::<FileRef>),
                decreases skip_count - k,
            {
                self.0.push(None);
                k += 1;
                assert(self.0@ =~= old(self).0@ + Seq::new(k as nat, |i: int| None::<FileRef>));
            }
            self.0.push(Some(file));
            hint
        }
    }

    /// Closes descriptor `fd`: its slot becomes empty. Returns whether the
    /// descriptor was open.
    pub fn close(&mut self, fd: usize) -> (r: bool)
        ensures
            r == old(self).spec_query(fd as int).is_some(),
            final(self)@ == (if r {
                old(self)@.update(fd as int, None)
            } else {
                old(self)@
            }),
    {
        if fd < self.0.len() && self.0[fd].is_some() {
            self.0[fd] = None;
            true
        } else {
            false
        }
    }

    /// A table with the same slots, which refers to the same file objects.
    pub fn duplicate(&self) -> (t: Self)
        ensures
            t@ == self@,
    {
        let mut slots: Vec<Option<FileRef>> = Vec::new();
        let mut i: usize = 0;
        while i < self.0.len()
            invariant
                i <= self.0@.len(),
                slots@ == self.0@.subrange(0, i as int),
            decreases self.0@.len() - i,
        {
            slots.push(self.0[i]);
            i += 1;
            assert(slots@ =~= self.0@.subrange(0, i as int));
        }
        assert(slots@ =~= self.0@);
        FdList(slots)
    }
}

impl Default for FdList {
    fn default() -> (t: Self)
        ensures
            t@ == seq![Some(FileRef::Stdin), Some(FileRef::Stdout), Some(FileRef::Stderr)],
    {
        FdList::new()
    }
}

} // verus!
