//! A small fixed-pool in-memory file system: the byte source for
//! wallpaper data and boot-time text files.

use vstd::prelude::*;

verus! {

/// Capacity of the file pool.
pub const MAX_FILES: usize = 16;

/// Bytes of a file name, terminator included.
pub const MAX_FILENAME_LENGTH: usize = 32;

/// Largest byte count of one file.
pub const MAX_FILE_SIZE: usize = 1024;

/// A file is a plain byte file or a directory.
#[derive(Clone, Copy, PartialEq, Eq, Structural, Debug)]
pub enum FileType {
    Regular,
    Directory,
}

/// One file: a bounded name, its kind, its bytes and bookkeeping.
pub struct File {
    pub name: Vec<u8>,
    pub file_type: FileType,
    pub data: Vec<u8>,
    pub used: bool,
    pub created_time: u32,
    pub modified_time: u32,
}

/// One listing entry: a file's name, kind and size.
pub struct DirEntry {
    pub name: Vec<u8>,
    pub file_type: FileType,
    pub size: usize,
}

/// The file system: a fixed pool of files and a logical clock.
pub struct FileSystem {
    pub files: Vec<File>,
    pub initialized: bool,
    pub current_time: u32,
}

/// Two byte strings are equal.
fn bytes_eq(a: &Vec<u8>, b: &[u8]) -> (r: bool)
    ensures
        r == (a@ == b@),
{
    if a.len() != b.len() {
        proof {
            assert(a@.len() != b@.len());
        }
        return false;
    }
    let n: usize = a.len();
    let mut i: usize = 0;
    while i < n
        invariant
            n == a.len(),
            n == b@.len(),
            i <= n,
            forall|j: int| 0 <= j < i ==> a@[j] == b@[j],
        decreases n - i,
    {
        if a[i] != b[i] {
            return false;
        }
        i = i + 1;
    }
    proof {
        assert(a@ =~= b@);
    }
    true
}

/// Copies a slice into a fresh vector, truncated to `cap` bytes.
fn bytes_copy(src: &[u8], cap: usize) -> (r: Vec<u8>)
    ensures
        r@ == src@.take(if src@.len() <= cap {
            src@.len() as int
        } else {
            cap as int
        }),
{
    let n: usize = if src.len() <= cap {
        src.len()
    } else {
        cap
    };
    let mut v: Vec<u8> = Vec::new();
    let mut i: usize = 0;
    while i < n
        invariant
            n <= src@.len(),
            i <= n,
            v@ == src@.take(i as int),
        decreases n - i,
    {
        v.push(src[i]);
        proof {
            assert(v@ =~= src@.take(i + 1));
        }
        i = i + 1;
    }
    v
}

impl FileSystem {
    /// Every pool slot exists and its contents stay bounded.
    pub open spec fn wf(self) -> bool {
        &&& self.files.len() == MAX_FILES
        &&& forall|i: int|
            0 <= i < MAX_FILES ==> (#[trigger] self.files@[i]).name.len() < MAX_FILENAME_LENGTH
                && self.files@[i].data.len() <= MAX_FILE_SIZE
    }

    /// The slot holds a live file of the given name.
    pub open spec fn file_at(self, i: int, name: Seq<u8>) -> bool {
        &&& 0 <= i < MAX_FILES
        &&& self.files@[i].used
        &&& self.files@[i].name@ == name
    }

    /// Some slot holds a live file of the given name.
    pub open spec fn has_file(self, name: Seq<u8>) -> bool {
        exists|i: int| #[trigger] self.file_at(i, name)
    }

    /// An empty, uninitialized file system.
    pub fn new() -> (r: FileSystem)
        ensures
            r.wf(),
            !r.initialized,
            forall|i: int| 0 <= i < MAX_FILES ==> !(#[trigger] r.files@[i]).used,
    {
        let mut files: Vec<File> = Vec::new();
        let mut i: usize = 0;
        while i < MAX_FILES
            invariant
                i <= MAX_FILES,
                files.len() == i,
                forall|j: int|
                    0 <= j < i ==> !(#[trigger] files@[j]).used && files@[j].name.len() == 0
                        && files@[j].data.len() == 0,
            decreases MAX_FILES - i,
        {
            files.push(
                File {
                    name: Vec::new(),
                    file_type: FileType::Regular,
                    data: Vec::new(),
                    used: false,
                    created_time: 0,
                    modified_time: 0,
                },
            );
            i = i + 1;
        }
        FileSystem { files, initialized: false, current_time: 0 }
    }

    /// The slot of the live file of the given name, if any.
    pub fn find_file(&self, name: &[u8]) -> (r: Option<usize>)
        requires
            self.wf(),
        ensures
            r is Some ==> self.file_at(r->Some_0 as int, name@) && self.initialized,
            r is None ==> !self.has_file(name@) || !self.initialized,
    {
        if !self.initialized {
            return None;
        }
        let mut i: usize = 0;
        while i < MAX_FILES
            invariant
                self.wf(),
                self.initialized,
                i <= MAX_FILES,
                forall|j: int| 0 <= j < i ==> !(#[trigger] self.file_at(j, name@)),
            decreases MAX_FILES - i,
        {
            if self.files[i].used {
                if bytes_eq(&self.files[i].name, name) {
                    return Some(i);
                }
            }
            i = i + 1;
        }
        None
    }

    /// Whether a live file of the given name exists.
    pub fn file_exists(&self, name: &[u8]) -> (r: bool)
        requires
            self.wf(),
        ensures
            r ==> self.has_file(name@),
            !r ==> !self.has_file(name@) || !self.initialized,
    {
        self.find_file(name).is_some()
    }

    /// Creates an empty file.  Refused (returning false, changing
    /// nothing) exactly when the pool is uninitialized, the name is
    /// taken or too long, or no slot is free; on success the first free
    /// slot takes the name and the clock advances.
    #[verifier::loop_isolation(false)]
    pub fn create_file(&mut self, name: &[u8], file_type: FileType) -> (r: bool)
        requires
            old(self).wf(),
        ensures
            final(self).wf(),
            r <==> (old(self).initialized && name@.len() < MAX_FILENAME_LENGTH && !old(
                self,
            ).has_file(name@) && exists|i: int|
                0 <= i < MAX_FILES && !(#[trigger] old(self).files@[i]).used),
            !r ==> *final(self) == *old(self),
            r ==> final(self).has_file(name@),
            r ==> final(self).initialized == old(self).initialized,
            r ==> exists|i: int|
                0 <= i < MAX_FILES && !(#[trigger] old(self).files@[i]).used && (forall|j: int|
                    0 <= j < i ==> (#[trigger] old(self).files@[j]).used) && final(self).files@
                    == old(self).files@.update(i, final(self).files@[i]) && final(self).files@[i].used && final(self).files@[i].name@ == name@ && final(self).files@[i].data.len()
                    == 0 && final(self).files@[i].file_type == file_type,
    {
        if !self.initialized {
            return false;
        }
        if name.len() >= MAX_FILENAME_LENGTH {
            return false;
        }
        if self.find_file(name).is_some() {
            return false;
        }
        let mut slot: usize = 0;
        while slot < MAX_FILES
            invariant
                slot <= MAX_FILES,
                *self == *old(self),
                forall|j: int| 0 <= j < slot ==> (#[trigger] self.files@[j]).used,
            decreases MAX_FILES - slot,
        {
            if !self.files[slot].used {
                if self.current_time < 0xFFFF_FFFF {
                    self.current_time = self.current_time + 1;
                }
                let t: u32 = self.current_time;
                let nm: Vec<u8> = bytes_copy(name, MAX_FILENAME_LENGTH - 1);
                self.files[slot] = File {
                    name: nm,
                    file_type,
                    data: Vec::new(),
                    used: true,
                    created_time: t,
                    modified_time: t,
                };
                proof {
                    assert(self.files@[slot as int].name@ =~= name@);
                    assert(self.file_at(slot as int, name@));
                }
                return true;
            }
            slot = slot + 1;
        }
        false
    }

    /// Deletes the live file of the given name.  Succeeds exactly when
    /// the pool is initialized and holds the name; nothing changes
    /// otherwise.
    #[verifier::loop_isolation(false)]
    pub fn delete_file(&mut self, name: &[u8]) -> (r: bool)
        requires
            old(self).wf(),
        ensures
            final(self).wf(),
            r <==> (old(self).initialized && old(self).has_file(name@)),
            !r ==> *final(self) == *old(self),
            r ==> exists|i: int|
                #[trigger] old(self).file_at(i, name@) && final(self).files@ == old(self).files@.update(i, final(self).files@[i]) && !final(self).files@[i].used,
    {
        let found: Option<usize> = self.find_file(name);
        match found {
            Some(i) => {
                self.files[i] = File {
                    name: Vec::new(),
                    file_type: FileType::Regular,
                    data: Vec::new(),
                    used: false,
                    created_time: 0,
                    modified_time: 0,
                };
                true
            },
            None => false,
        }
    }

    /// Writes a file's bytes, creating the file when absent.  Succeeds
    /// exactly when the pool is initialized, the data fits the size
    /// bound, and the file either exists or can be created (free slot,
    /// name not too long); nothing changes otherwise.
    #[verifier::loop_isolation(false)]
    pub fn write_file(&mut self, name: &[u8], data: &[u8]) -> (r: bool)
        requires
            old(self).wf(),
        ensures
            final(self).wf(),
            final(self).initialized == old(self).initialized,
            r <==> (old(self).initialized && data@.len() <= MAX_FILE_SIZE && (old(self).has_file(
                name@,
            ) || (name@.len() < MAX_FILENAME_LENGTH && exists|i: int|
                0 <= i < MAX_FILES && !(#[trigger] old(self).files@[i]).used))),
            !r ==> *final(self) == *old(self),
            r ==> exists|i: int|
                #[trigger] final(self).file_at(i, name@) && final(self).files@[i].data@ == data@,
            r && old(self).has_file(name@) ==> exists|i: int|
                #[trigger] old(self).file_at(i, name@) && final(self).files@ == old(
                    self,
                ).files@.update(i, final(self).files@[i]) && final(self).file_at(i, name@)
                    && final(self).files@[i].data@ == data@ && final(self).files@[i].file_type
                    == old(self).files@[i].file_type,
            r && !old(self).has_file(name@) ==> exists|i: int|
                0 <= i < MAX_FILES && !(#[trigger] old(self).files@[i]).used && (forall|j: int|
                    0 <= j < i ==> (#[trigger] old(self).files@[j]).used) && final(self).files@
                    == old(self).files@.update(i, final(self).files@[i]) && final(self).file_at(
                    i,
                    name@,
                ) && final(self).files@[i].data@ == data@ && final(self).files@[i].file_type
                    == FileType::Regular,
    {
        if data.len() > MAX_FILE_SIZE {
            return false;
        }
        let mut target: Option<usize> = self.find_file(name);
        if target.is_none() {
            if !self.create_file(name, FileType::Regular) {
                return false;
            }
            target = self.find_file(name);
        }
        let ghost s_mid: FileSystem = *self;
        match target {
            Some(i) => {
                let bytes: Vec<u8> = bytes_copy(data, MAX_FILE_SIZE);
                if self.current_time < 0xFFFF_FFFF {
                    self.current_time = self.current_time + 1;
                }
                let t: u32 = self.current_time;
                let (nm, ft, ct): (Vec<u8>, FileType, u32) = match &self.files[i] {
                    f => {
                        let nmc: Vec<u8> = bytes_copy(f.name.as_slice(), MAX_FILENAME_LENGTH - 1);
                        (nmc, f.file_type, f.created_time)
                    },
                };
                proof {
                    assert(nm@ =~= s_mid.files@[i as int].name@);
                    assert(bytes@ =~= data@);
                }
                self.files[i] = File {
                    name: nm,
                    file_type: ft,
                    data: bytes,
                    used: true,
                    created_time: ct,
                    modified_time: t,
                };
                proof {
                    assert(self.file_at(i as int, name@));
                    assert(s_mid.file_at(i as int, name@));
                    if old(self).has_file(name@) {
                        assert(old(self).file_at(i as int, name@));
                        assert(self.files@ =~= old(self).files@.update(
                            i as int,
                            self.files@[i as int],
                        ));
                    } else {
                        let ci = choose|ci: int|
                            0 <= ci < MAX_FILES && !(#[trigger] old(self).files@[ci]).used && (
                            forall|j: int|
                                0 <= j < ci ==> (#[trigger] old(self).files@[j]).used)
                                && s_mid.files@ == old(self).files@.update(
                                ci,
                                s_mid.files@[ci],
                            ) && s_mid.files@[ci].used && s_mid.files@[ci].name@ == name@
                                && s_mid.files@[ci].data.len() == 0
                                && s_mid.files@[ci].file_type == FileType::Regular;
                        if i as int != ci {
                            assert(s_mid.files@[i as int] == old(self).files@[i as int]);
                            assert(old(self).file_at(i as int, name@));
                        }
                        assert(i as int == ci);
                        assert(self.files@ =~= old(self).files@.update(
                            ci,
                            self.files@[ci],
                        ));
                    }
                }
                true
            },
            None => {
                proof {
                    assert(self.has_file(name@));
                }
                false
            },
        }
    }

    /// A copy of a live file's bytes; `None` when the name is unknown.
    pub fn read_file(&self, name: &[u8]) -> (r: Option<Vec<u8>>)
        requires
            self.wf(),
        ensures
            r is Some ==> exists|i: int|
                #[trigger] self.file_at(i, name@) && r->Some_0@ == self.files@[i].data@,
            r is None ==> !self.has_file(name@) || !self.initialized,
    {
        match self.find_file(name) {
            Some(i) => {
                let bytes: Vec<u8> = bytes_copy(self.files[i].data.as_slice(), MAX_FILE_SIZE);
                proof {
                    assert(bytes@ =~= self.files@[i as int].data@);
                }
                Some(bytes)
            },
            None => None,
        }
    }

    /// The indices of the live slots among the first `k`, in slot
    /// order.
    pub open spec fn live_slots(files: Seq<File>, k: int) -> Seq<int>
        decreases k,
    {
        if k <= 0 {
            Seq::empty()
        } else if files[k - 1].used {
            Self::live_slots(files, k - 1).push(k - 1)
        } else {
            Self::live_slots(files, k - 1)
        }
    }

    /// The bytes the live files among the first `k` slots hold
    /// together.
    pub open spec fn used_bytes(files: Seq<File>, k: int) -> int
        decreases k,
    {
        if k <= 0 {
            0
        } else if files[k - 1].used {
            Self::used_bytes(files, k - 1) + files[k - 1].data.len()
        } else {
            Self::used_bytes(files, k - 1)
        }
    }

    /// Lists every live file's name, kind and size, in slot order: one
    /// entry per live slot, carrying that slot's name, kind and byte
    /// count.
    pub fn list_files(&self) -> (r: Vec<DirEntry>)
        requires
            self.wf(),
        ensures
            r.len() <= MAX_FILES,
            r@.len() == Self::live_slots(self.files@, MAX_FILES as int).len(),
            forall|j: int|
                0 <= j < r@.len() ==> {
                    let i = Self::live_slots(self.files@, MAX_FILES as int)[j];
                    &&& (#[trigger] r@[j]).name@ == self.files@[i].name@
                    &&& r@[j].file_type == self.files@[i].file_type
                    &&& r@[j].size == self.files@[i].data.len()
                },
    {
        let mut entries: Vec<DirEntry> = Vec::new();
        let mut i: usize = 0;
        while i < MAX_FILES
            invariant
                self.wf(),
                i <= MAX_FILES,
                entries.len() <= i,
                entries@.len() == Self::live_slots(self.files@, i as int).len(),
                forall|j: int|
                    0 <= j < entries@.len() ==> {
                        let s = Self::live_slots(self.files@, i as int)[j];
                        &&& (#[trigger] entries@[j]).name@ == self.files@[s].name@
                        &&& entries@[j].file_type == self.files@[s].file_type
                        &&& entries@[j].size == self.files@[s].data.len()
                    },
            decreases MAX_FILES - i,
        {
            if self.files[i].used {
                let nm: Vec<u8> = bytes_copy(
                    self.files[i].name.as_slice(),
                    MAX_FILENAME_LENGTH - 1,
                );
                proof {
                    assert(nm@ =~= self.files@[i as int].name@);
                }
                let ft: FileType = self.files[i].file_type;
                let sz: usize = self.files[i].data.len();
                entries.push(DirEntry { name: nm, file_type: ft, size: sz });
            }
            i = i + 1;
        }
        entries
    }

    /// How many bytes of capacity the free slots offer: the free slot
    /// count times the per-file maximum, and zero before `init`.
    pub fn get_free_space(&self) -> (r: usize)
        requires
            self.wf(),
        ensures
            r <= MAX_FILES * MAX_FILE_SIZE,
            self.initialized ==> r == (MAX_FILES - Self::live_slots(
                self.files@,
                MAX_FILES as int,
            ).len()) * MAX_FILE_SIZE,
            !self.initialized ==> r == 0,
    {
        if !self.initialized {
            return 0;
        }
        let mut free: usize = 0;
        let mut i: usize = 0;
        while i < MAX_FILES
            invariant
                self.wf(),
                i <= MAX_FILES,
                free <= i,
                free == i - Self::live_slots(self.files@, i as int).len(),
            decreases MAX_FILES - i,
        {
            if !self.files[i].used {
                free = free + 1;
            }
            i = i + 1;
        }
        free * MAX_FILE_SIZE
    }

    /// How many bytes the live files hold together; zero before `init`.
    pub fn get_used_space(&self) -> (r: usize)
        requires
            self.wf(),
        ensures
            r <= MAX_FILES * MAX_FILE_SIZE,
            self.initialized ==> r == Self::used_bytes(self.files@, MAX_FILES as int),
            !self.initialized ==> r == 0,
    {
        if !self.initialized {
            return 0;
        }
        let mut used: usize = 0;
        let mut i: usize = 0;
        while i < MAX_FILES
            invariant
                self.wf(),
                i <= MAX_FILES,
                used <= i * MAX_FILE_SIZE,
                used == Self::used_bytes(self.files@, i as int),
            decreases MAX_FILES - i,
        {
            if self.files[i].used {
                used = used + self.files[i].data.len();
            }
            i = i + 1;
        }
        used
    }

    /// The name of the default welcome file.
    pub open spec fn welcome_name() -> Seq<u8> {
        seq![119u8, 101u8, 108u8, 99u8, 111u8, 109u8, 101u8, 46u8, 116u8, 120u8, 116u8]
    }

    /// The bytes of the default welcome file.
    pub open spec fn welcome_data() -> Seq<u8> {
        seq![87u8, 101u8, 108u8, 99u8, 111u8, 109u8, 101u8, 32u8, 116u8, 111u8, 32u8, 68u8, 69u8, 65u8, 32u8, 79u8, 83u8, 33u8, 10u8, 84u8, 121u8, 112u8, 101u8, 32u8, 39u8, 104u8, 101u8, 108u8, 112u8, 39u8, 32u8, 102u8, 111u8, 114u8, 32u8, 99u8, 111u8, 109u8, 109u8, 97u8, 110u8, 100u8, 115u8, 46u8, 10u8]
    }

    /// The name of the default readme file.
    pub open spec fn readme_name() -> Seq<u8> {
        seq![114u8, 101u8, 97u8, 100u8, 109u8, 101u8, 46u8, 116u8, 120u8, 116u8]
    }

    /// The bytes of the default readme file.
    pub open spec fn readme_data() -> Seq<u8> {
        seq![68u8, 69u8, 65u8, 32u8, 79u8, 83u8, 32u8, 70u8, 105u8, 108u8, 101u8, 32u8, 83u8, 121u8, 115u8, 116u8, 101u8, 109u8, 10u8, 10u8, 67u8, 111u8, 109u8, 109u8, 97u8, 110u8, 100u8, 115u8, 58u8, 10u8, 45u8, 32u8, 108u8, 115u8, 10u8, 45u8, 32u8, 99u8, 97u8, 116u8, 10u8, 45u8, 32u8, 116u8, 111u8, 117u8, 99u8, 104u8, 10u8, 45u8, 32u8, 114u8, 109u8, 10u8, 45u8, 32u8, 119u8, 114u8, 105u8, 116u8, 101u8, 10u8, 45u8, 32u8, 100u8, 102u8, 10u8]
    }

    /// The name of the default hello_c file.
    pub open spec fn hello_c_name() -> Seq<u8> {
        seq![104u8, 101u8, 108u8, 108u8, 111u8, 95u8, 99u8, 46u8, 101u8, 108u8, 102u8]
    }

    /// The bytes of the default hello_c file.
    pub open spec fn hello_c_data() -> Seq<u8> {
        seq![72u8, 101u8, 108u8, 108u8, 111u8, 32u8, 87u8, 111u8, 114u8, 108u8, 100u8, 32u8, 102u8, 114u8, 111u8, 109u8, 32u8, 67u8, 32u8, 112u8, 114u8, 111u8, 103u8, 114u8, 97u8, 109u8, 33u8, 10u8, 84u8, 104u8, 105u8, 115u8, 32u8, 119u8, 111u8, 117u8, 108u8, 100u8, 32u8, 98u8, 101u8, 32u8, 97u8, 32u8, 114u8, 101u8, 97u8, 108u8, 32u8, 69u8, 76u8, 70u8, 32u8, 102u8, 105u8, 108u8, 101u8, 32u8, 105u8, 110u8, 32u8, 112u8, 114u8, 111u8, 100u8, 117u8, 99u8, 116u8, 105u8, 111u8, 110u8, 46u8, 10u8]
    }

    /// The name of the default hello_asm file.
    pub open spec fn hello_asm_name() -> Seq<u8> {
        seq![104u8, 101u8, 108u8, 108u8, 111u8, 95u8, 97u8, 115u8, 109u8, 46u8, 101u8, 108u8, 102u8]
    }

    /// The bytes of the default hello_asm file.
    pub open spec fn hello_asm_data() -> Seq<u8> {
        seq![72u8, 101u8, 108u8, 108u8, 111u8, 32u8, 87u8, 111u8, 114u8, 108u8, 100u8, 32u8, 102u8, 114u8, 111u8, 109u8, 32u8, 65u8, 115u8, 115u8, 101u8, 109u8, 98u8, 108u8, 121u8, 33u8, 10u8, 84u8, 104u8, 105u8, 115u8, 32u8, 119u8, 111u8, 117u8, 108u8, 100u8, 32u8, 98u8, 101u8, 32u8, 97u8, 32u8, 114u8, 101u8, 97u8, 108u8, 32u8, 69u8, 76u8, 70u8, 32u8, 102u8, 105u8, 108u8, 101u8, 32u8, 105u8, 110u8, 32u8, 112u8, 114u8, 111u8, 100u8, 117u8, 99u8, 116u8, 105u8, 111u8, 110u8, 46u8, 10u8]
    }

    /// The name of the default demo file.
    pub open spec fn demo_name() -> Seq<u8> {
        seq![100u8, 101u8, 109u8, 111u8, 46u8, 116u8, 120u8, 116u8]
    }

    /// The bytes of the default demo file.
    pub open spec fn demo_data() -> Seq<u8> {
        seq![68u8, 69u8, 65u8, 32u8, 79u8, 83u8, 32u8, 80u8, 114u8, 111u8, 103u8, 114u8, 97u8, 109u8, 32u8, 69u8, 120u8, 101u8, 99u8, 117u8, 116u8, 105u8, 111u8, 110u8, 32u8, 68u8, 101u8, 109u8, 111u8, 10u8, 61u8, 61u8, 61u8, 61u8, 61u8, 61u8, 61u8, 61u8, 61u8, 61u8, 61u8, 61u8, 61u8, 61u8, 61u8, 61u8, 61u8, 61u8, 61u8, 61u8, 61u8, 61u8, 61u8, 61u8, 61u8, 61u8, 61u8, 61u8, 10u8, 10u8, 84u8, 114u8, 121u8, 32u8, 116u8, 104u8, 101u8, 115u8, 101u8, 32u8, 99u8, 111u8, 109u8, 109u8, 97u8, 110u8, 100u8, 115u8, 58u8, 10u8, 49u8, 46u8, 32u8, 99u8, 111u8, 109u8, 112u8, 105u8, 108u8, 101u8, 32u8, 104u8, 101u8, 108u8, 108u8, 111u8, 46u8, 101u8, 108u8, 102u8, 32u8, 32u8, 32u8, 32u8, 45u8, 32u8, 67u8, 114u8, 101u8, 97u8, 116u8, 101u8, 32u8, 116u8, 101u8, 115u8, 116u8, 32u8, 112u8, 114u8, 111u8, 103u8, 114u8, 97u8, 109u8, 10u8, 50u8, 46u8, 32u8, 101u8, 120u8, 101u8, 99u8, 32u8, 104u8, 101u8, 108u8, 108u8, 111u8, 46u8, 101u8, 108u8, 102u8, 32u8, 32u8, 32u8, 32u8, 32u8, 32u8, 32u8, 45u8, 32u8, 82u8, 117u8, 110u8, 32u8, 116u8, 104u8, 101u8, 32u8, 112u8, 114u8, 111u8, 103u8, 114u8, 97u8, 109u8, 10u8, 51u8, 46u8, 32u8, 112u8, 115u8, 32u8, 32u8, 32u8, 32u8, 32u8, 32u8, 32u8, 32u8, 32u8, 32u8, 32u8, 32u8, 32u8, 32u8, 32u8, 32u8, 32u8, 32u8, 32u8, 45u8, 32u8, 76u8, 105u8, 115u8, 116u8, 32u8, 112u8, 114u8, 111u8, 99u8, 101u8, 115u8, 115u8, 101u8, 115u8, 10u8, 52u8, 46u8, 32u8, 108u8, 115u8, 32u8, 32u8, 32u8, 32u8, 32u8, 32u8, 32u8, 32u8, 32u8, 32u8, 32u8, 32u8, 32u8, 32u8, 32u8, 32u8, 32u8, 32u8, 32u8, 45u8, 32u8, 83u8, 101u8, 101u8, 32u8, 97u8, 108u8, 108u8, 32u8, 102u8, 105u8, 108u8, 101u8, 115u8, 10u8, 10u8, 89u8, 111u8, 117u8, 114u8, 32u8, 79u8, 83u8, 32u8, 99u8, 97u8, 110u8, 32u8, 110u8, 111u8, 119u8, 32u8, 101u8, 120u8, 101u8, 99u8, 117u8, 116u8, 101u8, 32u8, 112u8, 114u8, 111u8, 103u8, 114u8, 97u8, 109u8, 115u8, 33u8, 10u8]
    }

    /// The pool holds exactly the default boot files: the welcome
    /// note, the readme, the two sample program images and the demo
    /// instruction file in the first five slots, every later slot
    /// free.
    pub open spec fn has_default_files(self) -> bool {
        &&& self.files@[0].used && self.files@[0].name@ == Self::welcome_name()
            && self.files@[0].data@ == Self::welcome_data() && self.files@[0].file_type
            == FileType::Regular
        &&& self.files@[1].used && self.files@[1].name@ == Self::readme_name()
            && self.files@[1].data@ == Self::readme_data() && self.files@[1].file_type
            == FileType::Regular
        &&& self.files@[2].used && self.files@[2].name@ == Self::hello_c_name()
            && self.files@[2].data@ == Self::hello_c_data() && self.files@[2].file_type
            == FileType::Regular
        &&& self.files@[3].used && self.files@[3].name@ == Self::hello_asm_name()
            && self.files@[3].data@ == Self::hello_asm_data() && self.files@[3].file_type
            == FileType::Regular
        &&& self.files@[4].used && self.files@[4].name@ == Self::demo_name()
            && self.files@[4].data@ == Self::demo_data() && self.files@[4].file_type
            == FileType::Regular
        &&& forall|i: int| 5 <= i < MAX_FILES ==> !(#[trigger] self.files@[i]).used
    }

    /// Marks the pool ready, clears every slot and installs the
    /// default boot files.  An initialized pool is left untouched.
    pub fn init(&mut self)
        requires
            old(self).wf(),
        ensures
            final(self).wf(),
            final(self).initialized,
            old(self).initialized ==> *final(self) == *old(self),
            !old(self).initialized ==> final(self).has_default_files(),
    {
        if self.initialized {
            return;
        }
        let mut i: usize = 0;
        while i < MAX_FILES
            invariant
                self.wf(),
                i <= MAX_FILES,
                self.initialized == old(self).initialized,
                forall|j: int| 0 <= j < i ==> !(#[trigger] self.files@[j]).used,
            decreases MAX_FILES - i,
        {
            self.files[i] = File {
                name: Vec::new(),
                file_type: FileType::Regular,
                data: Vec::new(),
                used: false,
                created_time: 0,
                modified_time: 0,
            };
            i = i + 1;
        }
        self.initialized = true;
        self.create_default_files();
    }


    /// Installs one default boot file; on the boot layout (earlier
    /// default files in the slots before 0, the rest of the pool free)
    /// it lands in slot 0 and leaves every other slot as it was.
    #[verifier::rlimit(100)]
    #[verifier::spinoff_prover]
    fn install_default_file_0(&mut self)
        requires
            old(self).wf(),
            old(self).initialized,
        ensures
            final(self).wf(),
            final(self).initialized,
            ((forall|i: int|
                0 <= i < MAX_FILES ==> !(#[trigger] old(self).files@[i]).used) && !old(
                self,
            ).has_file(Self::welcome_name())) ==> ((forall|i: int|
                0 <= i < 0 ==> final(self).files@[i] == old(self).files@[i])
                && final(self).files@[0].used && final(self).files@[0].name@
                == Self::welcome_name() && final(self).files@[0].data@ == Self::welcome_data()
                && final(self).files@[0].file_type == FileType::Regular && (forall|i: int|
                1 <= i < MAX_FILES ==> !(#[trigger] final(self).files@[i]).used)),
    {
        let name_a: [u8; 11] = [119u8, 101u8, 108u8, 99u8, 111u8, 109u8, 101u8, 46u8, 116u8, 120u8, 116u8];
        let data_a: [u8; 45] = [87u8, 101u8, 108u8, 99u8, 111u8, 109u8, 101u8, 32u8, 116u8, 111u8, 32u8, 68u8, 69u8, 65u8, 32u8, 79u8, 83u8, 33u8, 10u8, 84u8, 121u8, 112u8, 101u8, 32u8, 39u8, 104u8, 101u8, 108u8, 112u8, 39u8, 32u8, 102u8, 111u8, 114u8, 32u8, 99u8, 111u8, 109u8, 109u8, 97u8, 110u8, 100u8, 115u8, 46u8, 10u8];
        let ghost layout: bool = (forall|i: int|
            0 <= i < MAX_FILES ==> !(#[trigger] old(self).files@[i]).used) && !old(
            self,
        ).has_file(Self::welcome_name());
        proof {
            assert(name_a@ =~= Self::welcome_name());
            assert(data_a@ =~= Self::welcome_data());
        }
        let created: bool = self.create_file(name_a.as_slice(), FileType::Regular);
        let ghost s_mid: FileSystem = *self;
        proof {
            if layout {
                assert(!old(self).files@[0].used);
                assert(created);
                let ci = choose|ci: int|
                    0 <= ci < MAX_FILES && !(#[trigger] old(self).files@[ci]).used && (forall|
                        j: int,
                    |
                        0 <= j < ci ==> (#[trigger] old(self).files@[j]).used) && s_mid.files@
                        == old(self).files@.update(ci, s_mid.files@[ci])
                        && s_mid.files@[ci].used && s_mid.files@[ci].name@ == name_a@
                        && s_mid.files@[ci].data.len() == 0 && s_mid.files@[ci].file_type
                        == FileType::Regular;
                assert(ci == 0);
                assert(s_mid.file_at(0, name_a@));
            }
        }
        if created {
            let written: bool = self.write_file(name_a.as_slice(), data_a.as_slice());
            proof {
                if layout {
                    assert(written);
                    let wi = choose|wi: int|
                        #[trigger] s_mid.file_at(wi, name_a@) && self.files@
                            == s_mid.files@.update(wi, self.files@[wi]) && self.file_at(
                            wi,
                            name_a@,
                        ) && self.files@[wi].data@ == data_a@ && self.files@[wi].file_type
                            == s_mid.files@[wi].file_type;
                    if wi != 0 {
                        assert(s_mid.files@[wi] == old(self).files@[wi]);
                        assert(old(self).file_at(wi, name_a@));
                    }
                    assert(wi == 0);
                }
            }
        }
    }

    /// Installs one default boot file; on the boot layout (earlier
    /// default files in the slots before 1, the rest of the pool free)
    /// it lands in slot 1 and leaves every other slot as it was.
    #[verifier::rlimit(100)]
    #[verifier::spinoff_prover]
    fn install_default_file_1(&mut self)
        requires
            old(self).wf(),
            old(self).initialized,
        ensures
            final(self).wf(),
            final(self).initialized,
            ((forall|i: int|
                0 <= i < 1 ==> (#[trigger] old(self).files@[i]).used) && (forall|i: int|
                1 <= i < MAX_FILES ==> !(#[trigger] old(self).files@[i]).used) && !old(
                self,
            ).has_file(Self::readme_name())) ==> ((forall|i: int|
                0 <= i < 1 ==> final(self).files@[i] == old(self).files@[i])
                && final(self).files@[1].used && final(self).files@[1].name@
                == Self::readme_name() && final(self).files@[1].data@ == Self::readme_data()
                && final(self).files@[1].file_type == FileType::Regular && (forall|i: int|
                2 <= i < MAX_FILES ==> !(#[trigger] final(self).files@[i]).used)),
    {
        let name_a: [u8; 10] = [114u8, 101u8, 97u8, 100u8, 109u8, 101u8, 46u8, 116u8, 120u8, 116u8];
        let data_a: [u8; 67] = [68u8, 69u8, 65u8, 32u8, 79u8, 83u8, 32u8, 70u8, 105u8, 108u8, 101u8, 32u8, 83u8, 121u8, 115u8, 116u8, 101u8, 109u8, 10u8, 10u8, 67u8, 111u8, 109u8, 109u8, 97u8, 110u8, 100u8, 115u8, 58u8, 10u8, 45u8, 32u8, 108u8, 115u8, 10u8, 45u8, 32u8, 99u8, 97u8, 116u8, 10u8, 45u8, 32u8, 116u8, 111u8, 117u8, 99u8, 104u8, 10u8, 45u8, 32u8, 114u8, 109u8, 10u8, 45u8, 32u8, 119u8, 114u8, 105u8, 116u8, 101u8, 10u8, 45u8, 32u8, 100u8, 102u8, 10u8];
        let ghost layout: bool = (forall|i: int| 0 <= i < 1 ==> (#[trigger] old(self).files@[i]).used) && (forall|i: int|
            1 <= i < MAX_FILES ==> !(#[trigger] old(self).files@[i]).used) && !old(
            self,
        ).has_file(Self::readme_name());
        proof {
            assert(name_a@ =~= Self::readme_name());
            assert(data_a@ =~= Self::readme_data());
        }
        let created: bool = self.create_file(name_a.as_slice(), FileType::Regular);
        let ghost s_mid: FileSystem = *self;
        proof {
            if layout {
                assert(!old(self).files@[1].used);
                assert(created);
                let ci = choose|ci: int|
                    0 <= ci < MAX_FILES && !(#[trigger] old(self).files@[ci]).used && (forall|
                        j: int,
                    |
                        0 <= j < ci ==> (#[trigger] old(self).files@[j]).used) && s_mid.files@
                        == old(self).files@.update(ci, s_mid.files@[ci])
                        && s_mid.files@[ci].used && s_mid.files@[ci].name@ == name_a@
                        && s_mid.files@[ci].data.len() == 0 && s_mid.files@[ci].file_type
                        == FileType::Regular;
                assert(ci == 1);
                assert(s_mid.file_at(1, name_a@));
            }
        }
        if created {
            let written: bool = self.write_file(name_a.as_slice(), data_a.as_slice());
            proof {
                if layout {
                    assert(written);
                    let wi = choose|wi: int|
                        #[trigger] s_mid.file_at(wi, name_a@) && self.files@
                            == s_mid.files@.update(wi, self.files@[wi]) && self.file_at(
                            wi,
                            name_a@,
                        ) && self.files@[wi].data@ == data_a@ && self.files@[wi].file_type
                            == s_mid.files@[wi].file_type;
                    if wi != 1 {
                        assert(s_mid.files@[wi] == old(self).files@[wi]);
                        assert(old(self).file_at(wi, name_a@));
                    }
                    assert(wi == 1);
                }
            }
        }
    }

    /// Installs one default boot file; on the boot layout (earlier
    /// default files in the slots before 2, the rest of the pool free)
    /// it lands in slot 2 and leaves every other slot as it was.
    #[verifier::rlimit(100)]
    #[verifier::spinoff_prover]
    fn install_default_file_2(&mut self)
        requires
            old(self).wf(),
            old(self).initialized,
        ensures
            final(self).wf(),
            final(self).initialized,
            ((forall|i: int|
                0 <= i < 2 ==> (#[trigger] old(self).files@[i]).used) && (forall|i: int|
                2 <= i < MAX_FILES ==> !(#[trigger] old(self).files@[i]).used) && !old(
                self,
            ).has_file(Self::hello_c_name())) ==> ((forall|i: int|
                0 <= i < 2 ==> final(self).files@[i] == old(self).files@[i])
                && final(self).files@[2].used && final(self).files@[2].name@
                == Self::hello_c_name() && final(self).files@[2].data@ == Self::hello_c_data()
                && final(self).files@[2].file_type == FileType::Regular && (forall|i: int|
                3 <= i < MAX_FILES ==> !(#[trigger] final(self).files@[i]).used)),
    {
        let name_a: [u8; 11] = [104u8, 101u8, 108u8, 108u8, 111u8, 95u8, 99u8, 46u8, 101u8, 108u8, 102u8];
        let data_a: [u8; 73] = [72u8, 101u8, 108u8, 108u8, 111u8, 32u8, 87u8, 111u8, 114u8, 108u8, 100u8, 32u8, 102u8, 114u8, 111u8, 109u8, 32u8, 67u8, 32u8, 112u8, 114u8, 111u8, 103u8, 114u8, 97u8, 109u8, 33u8, 10u8, 84u8, 104u8, 105u8, 115u8, 32u8, 119u8, 111u8, 117u8, 108u8, 100u8, 32u8, 98u8, 101u8, 32u8, 97u8, 32u8, 114u8, 101u8, 97u8, 108u8, 32u8, 69u8, 76u8, 70u8, 32u8, 102u8, 105u8, 108u8, 101u8, 32u8, 105u8, 110u8, 32u8, 112u8, 114u8, 111u8, 100u8, 117u8, 99u8, 116u8, 105u8, 111u8, 110u8, 46u8, 10u8];
        let ghost layout: bool = (forall|i: int| 0 <= i < 2 ==> (#[trigger] old(self).files@[i]).used) && (forall|i: int|
            2 <= i < MAX_FILES ==> !(#[trigger] old(self).files@[i]).used) && !old(
            self,
        ).has_file(Self::hello_c_name());
        proof {
            assert(name_a@ =~= Self::hello_c_name());
            assert(data_a@ =~= Self::hello_c_data());
        }
        let created: bool = self.create_file(name_a.as_slice(), FileType::Regular);
        let ghost s_mid: FileSystem = *self;
        proof {
            if layout {
                assert(!old(self).files@[2].used);
                assert(created);
                let ci = choose|ci: int|
                    0 <= ci < MAX_FILES && !(#[trigger] old(self).files@[ci]).used && (forall|
                        j: int,
                    |
                        0 <= j < ci ==> (#[trigger] old(self).files@[j]).used) && s_mid.files@
                        == old(self).files@.update(ci, s_mid.files@[ci])
                        && s_mid.files@[ci].used && s_mid.files@[ci].name@ == name_a@
                        && s_mid.files@[ci].data.len() == 0 && s_mid.files@[ci].file_type
                        == FileType::Regular;
                assert(ci == 2);
                assert(s_mid.file_at(2, name_a@));
            }
        }
        if created {
            let written: bool = self.write_file(name_a.as_slice(), data_a.as_slice());
            proof {
                if layout {
                    assert(written);
                    let wi = choose|wi: int|
                        #[trigger] s_mid.file_at(wi, name_a@) && self.files@
                            == s_mid.files@.update(wi, self.files@[wi]) && self.file_at(
                            wi,
                            name_a@,
                        ) && self.files@[wi].data@ == data_a@ && self.files@[wi].file_type
                            == s_mid.files@[wi].file_type;
                    if wi != 2 {
                        assert(s_mid.files@[wi] == old(self).files@[wi]);
                        assert(old(self).file_at(wi, name_a@));
                    }
                    assert(wi == 2);
                }
            }
        }
    }

    /// Installs one default boot file; on the boot layout (earlier
    /// default files in the slots before 3, the rest of the pool free)
    /// it lands in slot 3 and leaves every other slot as it was.
    #[verifier::rlimit(100)]
    #[verifier::spinoff_prover]
    fn install_default_file_3(&mut self)
        requires
            old(self).wf(),
            old(self).initialized,
        ensures
            final(self).wf(),
            final(self).initialized,
            ((forall|i: int|
                0 <= i < 3 ==> (#[trigger] old(self).files@[i]).used) && (forall|i: int|
                3 <= i < MAX_FILES ==> !(#[trigger] old(self).files@[i]).used) && !old(
                self,
            ).has_file(Self::hello_asm_name())) ==> ((forall|i: int|
                0 <= i < 3 ==> final(self).files@[i] == old(self).files@[i])
                && final(self).files@[3].used && final(self).files@[3].name@
                == Self::hello_asm_name() && final(self).files@[3].data@ == Self::hello_asm_data()
                && final(self).files@[3].file_type == FileType::Regular && (forall|i: int|
                4 <= i < MAX_FILES ==> !(#[trigger] final(self).files@[i]).used)),
    {
        let name_a: [u8; 13] = [104u8, 101u8, 108u8, 108u8, 111u8, 95u8, 97u8, 115u8, 109u8, 46u8, 101u8, 108u8, 102u8];
        let data_a: [u8; 72] = [72u8, 101u8, 108u8, 108u8, 111u8, 32u8, 87u8, 111u8, 114u8, 108u8, 100u8, 32u8, 102u8, 114u8, 111u8, 109u8, 32u8, 65u8, 115u8, 115u8, 101u8, 109u8, 98u8, 108u8, 121u8, 33u8, 10u8, 84u8, 104u8, 105u8, 115u8, 32u8, 119u8, 111u8, 117u8, 108u8, 100u8, 32u8, 98u8, 101u8, 32u8, 97u8, 32u8, 114u8, 101u8, 97u8, 108u8, 32u8, 69u8, 76u8, 70u8, 32u8, 102u8, 105u8, 108u8, 101u8, 32u8, 105u8, 110u8, 32u8, 112u8, 114u8, 111u8, 100u8, 117u8, 99u8, 116u8, 105u8, 111u8, 110u8, 46u8, 10u8];
        let ghost layout: bool = (forall|i: int| 0 <= i < 3 ==> (#[trigger] old(self).files@[i]).used) && (forall|i: int|
            3 <= i < MAX_FILES ==> !(#[trigger] old(self).files@[i]).used) && !old(
            self,
        ).has_file(Self::hello_asm_name());
        proof {
            assert(name_a@ =~= Self::hello_asm_name());
            assert(data_a@ =~= Self::hello_asm_data());
        }
        let created: bool = self.create_file(name_a.as_slice(), FileType::Regular);
        let ghost s_mid: FileSystem = *self;
        proof {
            if layout {
                assert(!old(self).files@[3].used);
                assert(created);
                let ci = choose|ci: int|
                    0 <= ci < MAX_FILES && !(#[trigger] old(self).files@[ci]).used && (forall|
                        j: int,
                    |
                        0 <= j < ci ==> (#[trigger] old(self).files@[j]).used) && s_mid.files@
                        == old(self).files@.update(ci, s_mid.files@[ci])
                        && s_mid.files@[ci].used && s_mid.files@[ci].name@ == name_a@
                        && s_mid.files@[ci].data.len() == 0 && s_mid.files@[ci].file_type
                        == FileType::Regular;
                assert(ci == 3);
                assert(s_mid.file_at(3, name_a@));
            }
        }
        if created {
            let written: bool = self.write_file(name_a.as_slice(), data_a.as_slice());
            proof {
                if layout {
                    assert(written);
                    let wi = choose|wi: int|
                        #[trigger] s_mid.file_at(wi, name_a@) && self.files@
                            == s_mid.files@.update(wi, self.files@[wi]) && self.file_at(
                            wi,
                            name_a@,
                        ) && self.files@[wi].data@ == data_a@ && self.files@[wi].file_type
                            == s_mid.files@[wi].file_type;
                    if wi != 3 {
                        assert(s_mid.files@[wi] == old(self).files@[wi]);
                        assert(old(self).file_at(wi, name_a@));
                    }
                    assert(wi == 3);
                }
            }
        }
    }

    /// Installs one default boot file; on the boot layout (earlier
    /// default files in the slots before 4, the rest of the pool free)
    /// it lands in slot 4 and leaves every other slot as it was.
    #[verifier::rlimit(100)]
    #[verifier::spinoff_prover]
    fn install_default_file_4(&mut self)
        requires
            old(self).wf(),
            old(self).initialized,
        ensures
            final(self).wf(),
            final(self).initialized,
            ((forall|i: int|
                0 <= i < 4 ==> (#[trigger] old(self).files@[i]).used) && (forall|i: int|
                4 <= i < MAX_FILES ==> !(#[trigger] old(self).files@[i]).used) && !old(
                self,
            ).has_file(Self::demo_name())) ==> ((forall|i: int|
                0 <= i < 4 ==> final(self).files@[i] == old(self).files@[i])
                && final(self).files@[4].used && final(self).files@[4].name@
                == Self::demo_name() && final(self).files@[4].data@ == Self::demo_data()
                && final(self).files@[4].file_type == FileType::Regular && (forall|i: int|
                5 <= i < MAX_FILES ==> !(#[trigger] final(self).files@[i]).used)),
    {
        let name_a: [u8; 8] = [100u8, 101u8, 109u8, 111u8, 46u8, 116u8, 120u8, 116u8];
        let data_a: [u8; 284] = [68u8, 69u8, 65u8, 32u8, 79u8, 83u8, 32u8, 80u8, 114u8, 111u8, 103u8, 114u8, 97u8, 109u8, 32u8, 69u8, 120u8, 101u8, 99u8, 117u8, 116u8, 105u8, 111u8, 110u8, 32u8, 68u8, 101u8, 109u8, 111u8, 10u8, 61u8, 61u8, 61u8, 61u8, 61u8, 61u8, 61u8, 61u8, 61u8, 61u8, 61u8, 61u8, 61u8, 61u8, 61u8, 61u8, 61u8, 61u8, 61u8, 61u8, 61u8, 61u8, 61u8, 61u8, 61u8, 61u8, 61u8, 61u8, 10u8, 10u8, 84u8, 114u8, 121u8, 32u8, 116u8, 104u8, 101u8, 115u8, 101u8, 32u8, 99u8, 111u8, 109u8, 109u8, 97u8, 110u8, 100u8, 115u8, 58u8, 10u8, 49u8, 46u8, 32u8, 99u8, 111u8, 109u8, 112u8, 105u8, 108u8, 101u8, 32u8, 104u8, 101u8, 108u8, 108u8, 111u8, 46u8, 101u8, 108u8, 102u8, 32u8, 32u8, 32u8, 32u8, 45u8, 32u8, 67u8, 114u8, 101u8, 97u8, 116u8, 101u8, 32u8, 116u8, 101u8, 115u8, 116u8, 32u8, 112u8, 114u8, 111u8, 103u8, 114u8, 97u8, 109u8, 10u8, 50u8, 46u8, 32u8, 101u8, 120u8, 101u8, 99u8, 32u8, 104u8, 101u8, 108u8, 108u8, 111u8, 46u8, 101u8, 108u8, 102u8, 32u8, 32u8, 32u8, 32u8, 32u8, 32u8, 32u8, 45u8, 32u8, 82u8, 117u8, 110u8, 32u8, 116u8, 104u8, 101u8, 32u8, 112u8, 114u8, 111u8, 103u8, 114u8, 97u8, 109u8, 10u8, 51u8, 46u8, 32u8, 112u8, 115u8, 32u8, 32u8, 32u8, 32u8, 32u8, 32u8, 32u8, 32u8, 32u8, 32u8, 32u8, 32u8, 32u8, 32u8, 32u8, 32u8, 32u8, 32u8, 32u8, 45u8, 32u8, 76u8, 105u8, 115u8, 116u8, 32u8, 112u8, 114u8, 111u8, 99u8, 101u8, 115u8, 115u8, 101u8, 115u8, 10u8, 52u8, 46u8, 32u8, 108u8, 115u8, 32u8, 32u8, 32u8, 32u8, 32u8, 32u8, 32u8, 32u8, 32u8, 32u8, 32u8, 32u8, 32u8, 32u8, 32u8, 32u8, 32u8, 32u8, 32u8, 45u8, 32u8, 83u8, 101u8, 101u8, 32u8, 97u8, 108u8, 108u8, 32u8, 102u8, 105u8, 108u8, 101u8, 115u8, 10u8, 10u8, 89u8, 111u8, 117u8, 114u8, 32u8, 79u8, 83u8, 32u8, 99u8, 97u8, 110u8, 32u8, 110u8, 111u8, 119u8, 32u8, 101u8, 120u8, 101u8, 99u8, 117u8, 116u8, 101u8, 32u8, 112u8, 114u8, 111u8, 103u8, 114u8, 97u8, 109u8, 115u8, 33u8, 10u8];
        let ghost layout: bool = (forall|i: int| 0 <= i < 4 ==> (#[trigger] old(self).files@[i]).used) && (forall|i: int|
            4 <= i < MAX_FILES ==> !(#[trigger] old(self).files@[i]).used) && !old(
            self,
        ).has_file(Self::demo_name());
        proof {
            assert(name_a@ =~= Self::demo_name());
            assert(data_a@ =~= Self::demo_data());
        }
        let created: bool = self.create_file(name_a.as_slice(), FileType::Regular);
        let ghost s_mid: FileSystem = *self;
        proof {
            if layout {
                assert(!old(self).files@[4].used);
                assert(created);
                let ci = choose|ci: int|
                    0 <= ci < MAX_FILES && !(#[trigger] old(self).files@[ci]).used && (forall|
                        j: int,
                    |
                        0 <= j < ci ==> (#[trigger] old(self).files@[j]).used) && s_mid.files@
                        == old(self).files@.update(ci, s_mid.files@[ci])
                        && s_mid.files@[ci].used && s_mid.files@[ci].name@ == name_a@
                        && s_mid.files@[ci].data.len() == 0 && s_mid.files@[ci].file_type
                        == FileType::Regular;
                assert(ci == 4);
                assert(s_mid.file_at(4, name_a@));
            }
        }
        if created {
            let written: bool = self.write_file(name_a.as_slice(), data_a.as_slice());
            proof {
                if layout {
                    assert(written);
                    let wi = choose|wi: int|
                        #[trigger] s_mid.file_at(wi, name_a@) && self.files@
                            == s_mid.files@.update(wi, self.files@[wi]) && self.file_at(
                            wi,
                            name_a@,
                        ) && self.files@[wi].data@ == data_a@ && self.files@[wi].file_type
                            == s_mid.files@[wi].file_type;
                    if wi != 4 {
                        assert(s_mid.files@[wi] == old(self).files@[wi]);
                        assert(old(self).file_at(wi, name_a@));
                    }
                    assert(wi == 4);
                }
            }
        }
    }

    /// Installs the default boot files: a welcome note, a readme, two
    /// sample program images and a demo instruction file.  On an empty
    /// pool they land in the first five slots with exactly their
    /// default contents.
    #[verifier::rlimit(100)]
    #[verifier::spinoff_prover]
    pub fn create_default_files(&mut self)
        requires
            old(self).wf(),
            old(self).initialized,
        ensures
            final(self).wf(),
            final(self).initialized,
            (forall|i: int| 0 <= i < MAX_FILES ==> !(#[trigger] old(self).files@[i]).used)
                ==> final(self).has_default_files(),
    {
        let ghost fresh: bool = forall|i: int|
            0 <= i < MAX_FILES ==> !(#[trigger] old(self).files@[i]).used;
        proof {
            if fresh {
                assert(!old(self).has_file(Self::welcome_name())) by {
                    if old(self).has_file(Self::welcome_name()) {
                        let i = choose|i: int|
                            #[trigger] old(self).file_at(i, Self::welcome_name());
                        assert(old(self).files@[i].used);
                    }
                }
            }
        }
        self.install_default_file_0();
        let ghost s1: FileSystem = *self;
        proof {
            if fresh {
                assert(!s1.has_file(Self::readme_name())) by {
                    if s1.has_file(Self::readme_name()) {
                        let i = choose|i: int| #[trigger] s1.file_at(i, Self::readme_name());
                        assert(i == 0);
                        assert(Self::welcome_name().len() == 11);
                        assert(Self::readme_name().len() == 10);
                    }
                }
            }
        }
        self.install_default_file_1();
        let ghost s2: FileSystem = *self;
        proof {
            if fresh {
                assert(!s2.has_file(Self::hello_c_name())) by {
                    if s2.has_file(Self::hello_c_name()) {
                        let i = choose|i: int| #[trigger] s2.file_at(i, Self::hello_c_name());
                        assert(0 <= i < 2);
                        assert(Self::welcome_name()[0] == 119u8);
                        assert(Self::hello_c_name()[0] == 104u8);
                        assert(Self::readme_name().len() == 10);
                        assert(Self::hello_c_name().len() == 11);
                    }
                }
            }
        }
        self.install_default_file_2();
        let ghost s3: FileSystem = *self;
        proof {
            if fresh {
                assert(!s3.has_file(Self::hello_asm_name())) by {
                    if s3.has_file(Self::hello_asm_name()) {
                        let i = choose|i: int| #[trigger] s3.file_at(i, Self::hello_asm_name());
                        assert(0 <= i < 3);
                        assert(Self::hello_asm_name().len() == 13);
                        assert(Self::welcome_name().len() == 11);
                        assert(Self::readme_name().len() == 10);
                        assert(Self::hello_c_name().len() == 11);
                    }
                }
            }
        }
        self.install_default_file_3();
        let ghost s4: FileSystem = *self;
        proof {
            if fresh {
                assert(!s4.has_file(Self::demo_name())) by {
                    if s4.has_file(Self::demo_name()) {
                        let i = choose|i: int| #[trigger] s4.file_at(i, Self::demo_name());
                        assert(0 <= i < 4);
                        assert(Self::demo_name().len() == 8);
                        assert(Self::welcome_name().len() == 11);
                        assert(Self::readme_name().len() == 10);
                        assert(Self::hello_c_name().len() == 11);
                        assert(Self::hello_asm_name().len() == 13);
                    }
                }
            }
        }
        self.install_default_file_4();
    }
}

} // verus!
