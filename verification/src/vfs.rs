//! Inodes of a file system that several users hold at once. Each operation locks the file system,
//! is carried out on what the lock guards, and lets go of it. What it does under the lock stands in
//! a function of its own, named after it, which takes the guard.
use spin::{Mutex, MutexGuard};
use std::sync::Arc;
use vstd::prelude::*;
use vstd::utf8::*;

use crate::efs::{
    EasyFileSystem, Rejected, clear_step, create_step, find_answer, hardlink_step, ls_answer,
    read_answer, stat_answer, unlink_step, write_step,
};
use crate::handle::InodeHandle;
use crate::image::FsView;

verus! {

/// What kind of file an inode is.
#[derive(Clone, Copy, PartialEq, Eq, Structural, Debug)]
pub enum StatMode {
    NULL,
    DIR,
    FILE,
}

/// The stat of an inode.
#[derive(Clone, Copy, PartialEq, Eq, Structural, Debug)]
pub struct Stat {
    pub mode: StatMode,
    pub nlink: u32,
}

/// The lock of the `spin` crate. Nothing is known of what it guards: other users may change it at
/// any time.
#[verifier::external_type_specification]
#[verifier::external_body]
#[verifier::reject_recursive_types(T)]
pub struct ExMutex<T: ?Sized>(Mutex<T>);

/// What a lock of the `spin` crate hands out: access to what it guards, until it is dropped.
#[verifier::external_type_specification]
#[verifier::external_body]
#[verifier::reject_recursive_types(T)]
pub struct ExMutexGuard<'a, T: 'a + ?Sized>(MutexGuard<'a, T>);

/// The file system that a guard gives access to.
pub uninterp spec fn guarded(guard: MutexGuard<EasyFileSystem>) -> FsView;

/// The guard was handed out by the lock, and gives access to what that lock guards.
pub uninterp spec fn handed_out(
    mutex: Mutex<EasyFileSystem>,
    guard: MutexGuard<EasyFileSystem>,
) -> bool;

/// `spin::Mutex::lock`: waits until the lock is free, takes it, and hands out a guard of this lock.
/// Nothing is stated of what is found behind it, which rests on what other users did. A user that
/// already holds the lock waits without end.
#[verifier::external_body]
fn lock_fs(mutex: &Mutex<EasyFileSystem>) -> (guard: MutexGuard<'_, EasyFileSystem>)
    ensures
        handed_out(*mutex, guard),
{
    mutex.lock()
}

/// `Deref::deref` of `spin::MutexGuard`: what the guard gives access to, to be read.
#[verifier::external_body]
fn guard_ref<'a>(guard: &'a MutexGuard<'_, EasyFileSystem>) -> (r: &'a EasyFileSystem)
    ensures
        r@ == guarded(*guard),
{
    &**guard
}

/// `DerefMut::deref_mut` of `spin::MutexGuard`: what the guard gives access to, to be changed. The
/// guard then gives access to what was made of it, and is still one of the same lock.
#[verifier::external_body]
fn guard_mut<'a>(guard: &'a mut MutexGuard<'_, EasyFileSystem>) -> (r: &'a mut EasyFileSystem)
    ensures
        r@ == guarded(*old(guard)),
        guarded(*final(guard)) == final(r)@,
        forall|mutex: Mutex<EasyFileSystem>|
            handed_out(mutex, *old(guard)) ==> #[trigger] handed_out(mutex, *final(guard)),
{
    &mut **guard
}

/// `Arc::clone` of std: another hold on the same value.
#[verifier::external_body]
fn clone_arc(arc: &Arc<Mutex<EasyFileSystem>>) -> (r: Arc<Mutex<EasyFileSystem>>)
    ensures
        r == *arc,
{
    Arc::clone(arc)
}

/// Virtual file system layer over the easy file system: a handle on an inode, with the file system
/// that it belongs to.
pub struct Inode {
    pub handle: InodeHandle,
    pub fs: Arc<Mutex<EasyFileSystem>>,
}

/// A lock that handed out the guard `g` handed out the guard `h`.
pub open spec fn same_lock(
    g: MutexGuard<EasyFileSystem>,
    h: MutexGuard<EasyFileSystem>,
) -> bool {
    forall|mutex: Mutex<EasyFileSystem>|
        handed_out(mutex, g) ==> #[trigger] handed_out(mutex, h)
}

/// An answer without the file system that its inode belongs to.
pub open spec fn bare(r: Result<Option<Arc<Inode>>, Rejected>) -> Result<
    Option<InodeHandle>,
    Rejected,
> {
    match r {
        Ok(Some(inode)) => Ok(Some(inode.handle)),
        Ok(None) => Ok(None),
        Err(e) => Err(e),
    }
}

/// The inode of an answer, if it holds one, belongs to the file system `fs`.
pub open spec fn belongs(
    r: Result<Option<Arc<Inode>>, Rejected>,
    fs: Arc<Mutex<EasyFileSystem>>,
) -> bool {
    r matches Ok(Some(inode)) ==> inode.fs == fs
}

impl Inode {
    /// Creates a vfs inode.
    pub fn new(
        inode_id: usize,
        block_id: u32,
        block_offset: usize,
        fs: Arc<Mutex<EasyFileSystem>>,
    ) -> (r: Inode)
        ensures
            r.handle == (InodeHandle { inode_id, block_id: block_id as usize, block_offset }),
            r.fs == fs,
    {
        Inode { handle: InodeHandle::new(inode_id, block_id, block_offset), fs }
    }

    /// Gives an answer the file system of this inode.
    fn attach(&self, answer: Result<Option<InodeHandle>, Rejected>) -> (r: Result<
        Option<Arc<Inode>>,
        Rejected,
    >)
        ensures
            bare(r) == answer,
            belongs(r, self.fs),
    {
        match answer {
            Ok(Some(handle)) => Ok(Some(Arc::new(Inode { handle, fs: clone_arc(&self.fs) }))),
            Ok(None) => Ok(None),
            Err(e) => Err(e),
        }
    }

    /// `find` for one who holds the lock.
    pub fn find_locked(&self, fs: &MutexGuard<'_, EasyFileSystem>, name: &str) -> (r: Result<
        Option<Arc<Inode>>,
        Rejected,
    >)
        ensures
            guarded(*fs).sound(),
            find_answer(guarded(*fs), self.handle, encode_utf8(name@), bare(r)),
            belongs(r, self.fs),
    {
        let found = guard_ref(fs).find(&self.handle, name);
        self.attach(found)
    }

    /// Finds the inode that `name` stands for in this directory.
    pub fn find(&self, name: &str) -> (r: Result<Option<Arc<Inode>>, Rejected>)
        ensures
            exists|g: MutexGuard<'_, EasyFileSystem>|
                handed_out(*self.fs, g) && guarded(g).sound() && #[trigger] find_answer(
                    guarded(g),
                    self.handle,
                    encode_utf8(name@),
                    bare(r),
                ),
            belongs(r, self.fs),
    {
        let fs = lock_fs(&self.fs);
        self.find_locked(&fs, name)
    }

    /// `create` for one who holds the lock.
    pub fn create_locked(&self, fs: &mut MutexGuard<'_, EasyFileSystem>, name: &str) -> (r: Result<
        Option<Arc<Inode>>,
        Rejected,
    >)
        ensures
            guarded(*old(fs)).sound(),
            guarded(*final(fs)).sound(),
            same_lock(*old(fs), *final(fs)),
            create_step(
                guarded(*old(fs)),
                guarded(*final(fs)),
                self.handle,
                encode_utf8(name@),
                bare(r),
            ),
            belongs(r, self.fs),
    {
        let made = guard_mut(fs).create(&self.handle, name);
        self.attach(made)
    }

    /// Makes an empty file in this directory under the name `name`, unless the name is taken.
    pub fn create(&self, name: &str) -> (r: Result<Option<Arc<Inode>>, Rejected>)
        ensures
            exists|g: MutexGuard<'_, EasyFileSystem>, h: MutexGuard<'_, EasyFileSystem>|
                handed_out(*self.fs, g) && handed_out(*self.fs, h) && guarded(g).sound()
                    && guarded(h).sound() && #[trigger] create_step(
                    guarded(g),
                    guarded(h),
                    self.handle,
                    encode_utf8(name@),
                    bare(r),
                ),
            belongs(r, self.fs),
    {
        let mut fs = lock_fs(&self.fs);
        self.create_locked(&mut fs, name)
    }

    /// `hardlink` for one who holds the lock.
    pub fn hardlink_locked(
        &self,
        fs: &mut MutexGuard<'_, EasyFileSystem>,
        src_name: &str,
        dst_name: &str,
    ) -> (r: Result<Option<Arc<Inode>>, Rejected>)
        ensures
            guarded(*old(fs)).sound(),
            guarded(*final(fs)).sound(),
            same_lock(*old(fs), *final(fs)),
            hardlink_step(
                guarded(*old(fs)),
                guarded(*final(fs)),
                self.handle,
                encode_utf8(src_name@),
                encode_utf8(dst_name@),
                bare(r),
            ),
            r matches Ok(made) ==> made is None,
    {
        let made = guard_mut(fs).hardlink(&self.handle, src_name, dst_name);
        self.attach(made)
    }

    /// Gives the file that `src_name` stands for in this directory the name `dst_name` too, unless
    /// that is taken. No inode is handed out.
    pub fn hardlink(&self, src_name: &str, dst_name: &str) -> (r: Result<
        Option<Arc<Inode>>,
        Rejected,
    >)
        ensures
            exists|g: MutexGuard<'_, EasyFileSystem>, h: MutexGuard<'_, EasyFileSystem>|
                handed_out(*self.fs, g) && handed_out(*self.fs, h) && guarded(g).sound()
                    && guarded(h).sound() && #[trigger] hardlink_step(
                    guarded(g),
                    guarded(h),
                    self.handle,
                    encode_utf8(src_name@),
                    encode_utf8(dst_name@),
                    bare(r),
                ),
            r matches Ok(made) ==> made is None,
    {
        let mut fs = lock_fs(&self.fs);
        self.hardlink_locked(&mut fs, src_name, dst_name)
    }

    /// `unlink` for one who holds the lock.
    pub fn unlink_locked(&self, fs: &mut MutexGuard<'_, EasyFileSystem>, name: &str) -> (r: Result<
        Option<()>,
        Rejected,
    >)
        ensures
            guarded(*old(fs)).sound(),
            guarded(*final(fs)).sound(),
            same_lock(*old(fs), *final(fs)),
            unlink_step(
                guarded(*old(fs)),
                guarded(*final(fs)),
                self.handle,
                encode_utf8(name@),
                r,
            ),
    {
        guard_mut(fs).unlink(&self.handle, name)
    }

    /// Gives up a link of the file that `name` stands for in this directory.
    pub fn unlink(&self, name: &str) -> (r: Result<Option<()>, Rejected>)
        ensures
            exists|g: MutexGuard<'_, EasyFileSystem>, h: MutexGuard<'_, EasyFileSystem>|
                handed_out(*self.fs, g) && handed_out(*self.fs, h) && guarded(g).sound()
                    && guarded(h).sound() && #[trigger] unlink_step(
                    guarded(g),
                    guarded(h),
                    self.handle,
                    encode_utf8(name@),
                    r,
                ),
    {
        let mut fs = lock_fs(&self.fs);
        self.unlink_locked(&mut fs, name)
    }

    /// `get_fstat` for one who holds the lock.
    pub fn get_fstat_locked(&self, fs: &MutexGuard<'_, EasyFileSystem>) -> (r: Result<
        Stat,
        Rejected,
    >)
        ensures
            guarded(*fs).sound(),
            stat_answer(guarded(*fs), self.handle, r),
    {
        guard_ref(fs).get_fstat(&self.handle)
    }

    /// The kind of this inode and its number of links. One who holds the lock asks
    /// `get_fstat_locked`.
    pub fn get_fstat(&self) -> (r: Result<Stat, Rejected>)
        ensures
            exists|g: MutexGuard<'_, EasyFileSystem>|
                handed_out(*self.fs, g) && guarded(g).sound() && #[trigger] stat_answer(
                    guarded(g),
                    self.handle,
                    r,
                ),
    {
        let fs = lock_fs(&self.fs);
        self.get_fstat_locked(&fs)
    }

    /// `ls` for one who holds the lock.
    pub fn ls_locked(&self, fs: &MutexGuard<'_, EasyFileSystem>) -> (r: Result<
        Vec<String>,
        Rejected,
    >)
        ensures
            guarded(*fs).sound(),
            ls_answer(guarded(*fs), self.handle, r),
    {
        guard_ref(fs).ls(&self.handle)
    }

    /// Lists the names in this directory.
    pub fn ls(&self) -> (r: Result<Vec<String>, Rejected>)
        ensures
            exists|g: MutexGuard<'_, EasyFileSystem>|
                handed_out(*self.fs, g) && guarded(g).sound() && #[trigger] ls_answer(
                    guarded(g),
                    self.handle,
                    r,
                ),
    {
        let fs = lock_fs(&self.fs);
        self.ls_locked(&fs)
    }

    /// The number of this inode.
    pub fn get_inode_id(&self) -> (r: usize)
        ensures
            r == self.handle.inode_id,
    {
        self.handle.inode_id
    }

    /// `read_at` for one who holds the lock.
    pub fn read_at_locked(
        &self,
        fs: &MutexGuard<'_, EasyFileSystem>,
        offset: usize,
        buf: &mut [u8],
    ) -> (r: Result<usize, Rejected>)
        ensures
            guarded(*fs).sound(),
            read_answer(guarded(*fs), self.handle, offset as int, old(buf)@, final(buf)@, r),
    {
        guard_ref(fs).read_at(&self.handle, offset, buf)
    }

    /// Reads data from the file.
    pub fn read_at(&self, offset: usize, buf: &mut [u8]) -> (r: Result<usize, Rejected>)
        ensures
            exists|g: MutexGuard<'_, EasyFileSystem>|
                handed_out(*self.fs, g) && guarded(g).sound() && #[trigger] read_answer(
                    guarded(g),
                    self.handle,
                    offset as int,
                    old(buf)@,
                    final(buf)@,
                    r,
                ),
    {
        let fs = lock_fs(&self.fs);
        self.read_at_locked(&fs, offset, buf)
    }

    /// `write_at` for one who holds the lock.
    pub fn write_at_locked(
        &self,
        fs: &mut MutexGuard<'_, EasyFileSystem>,
        offset: usize,
        buf: &[u8],
    ) -> (r: Result<usize, Rejected>)
        ensures
            guarded(*old(fs)).sound(),
            guarded(*final(fs)).sound(),
            same_lock(*old(fs), *final(fs)),
            write_step(
                guarded(*old(fs)),
                guarded(*final(fs)),
                self.handle,
                offset as int,
                buf@,
                r,
            ),
    {
        guard_mut(fs).write_at(&self.handle, offset, buf)
    }

    /// Writes data to the file.
    pub fn write_at(&self, offset: usize, buf: &[u8]) -> (r: Result<usize, Rejected>)
        ensures
            exists|g: MutexGuard<'_, EasyFileSystem>, h: MutexGuard<'_, EasyFileSystem>|
                handed_out(*self.fs, g) && handed_out(*self.fs, h) && guarded(g).sound()
                    && guarded(h).sound() && #[trigger] write_step(
                    guarded(g),
                    guarded(h),
                    self.handle,
                    offset as int,
                    buf@,
                    r,
                ),
    {
        let mut fs = lock_fs(&self.fs);
        self.write_at_locked(&mut fs, offset, buf)
    }

    /// `clear` for one who holds the lock.
    pub fn clear_locked(&self, fs: &mut MutexGuard<'_, EasyFileSystem>) -> (r: Result<
        (),
        Rejected,
    >)
        ensures
            guarded(*old(fs)).sound(),
            guarded(*final(fs)).sound(),
            same_lock(*old(fs), *final(fs)),
            clear_step(guarded(*old(fs)), guarded(*final(fs)), self.handle, r),
    {
        guard_mut(fs).clear(&self.handle)
    }

    /// Clears the data in the file.
    pub fn clear(&self) -> (r: Result<(), Rejected>)
        ensures
            exists|g: MutexGuard<'_, EasyFileSystem>, h: MutexGuard<'_, EasyFileSystem>|
                handed_out(*self.fs, g) && handed_out(*self.fs, h) && guarded(g).sound()
                    && guarded(h).sound() && #[trigger] clear_step(
                    guarded(g),
                    guarded(h),
                    self.handle,
                    r,
                ),
    {
        let mut fs = lock_fs(&self.fs);
        self.clear_locked(&mut fs)
    }
}

} // verus!
