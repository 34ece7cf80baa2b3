//! A file system in use: it is well formed at all times, and an operation that cannot be carried
//! out is rejected.
use vstd::prelude::*;
use vstd::utf8::*;

use crate::block::first_free;
use crate::dirent::listing;
use crate::handle::{InodeHandle, handle_of, size_after_write};
use crate::image::{FsImage, FsView, lemma_wf_sound};
use crate::layout::{DiskInodeType, span};
use crate::vfs::{Stat, StatMode};

verus! {

/// The operation cannot be carried out: the handle leads nowhere or to a file of the wrong kind, a
/// name is too long or is no text, the disk is full, or a link count is at its end.
#[derive(Clone, Copy, PartialEq, Eq, Structural, Debug)]
pub struct Rejected;

/// A file system in use.
pub struct EasyFileSystem {
    image: FsImage,
}

impl View for EasyFileSystem {
    type V = FsView;

    closed spec fn view(&self) -> FsView {
        self.image@
    }
}

/// What `find` answers in a file system `fs`.
pub open spec fn find_answer(
    fs: FsView,
    dir: InodeHandle,
    name: Seq<u8>,
    r: Result<Option<InodeHandle>, Rejected>,
) -> bool {
    match r {
        Err(_) => !dir.is_dir_in(fs),
        Ok(found) => dir.is_dir_in(fs) && found == match dir.lookup_in(fs, name) {
            Some(id) => Some(handle_of(fs.inode_area_start, id)),
            None => None,
        },
    }
}

/// What `get_fstat` answers in a file system `fs`.
pub open spec fn stat_answer(fs: FsView, inode: InodeHandle, r: Result<Stat, Rejected>) -> bool {
    match r {
        Err(_) => !inode.valid(fs),
        Ok(stat) => {
            &&& inode.valid(fs)
            &&& stat.mode == match inode.file(fs).kind {
                DiskInodeType::Directory => StatMode::DIR,
                DiskInodeType::File => StatMode::FILE,
            }
            &&& stat.nlink == inode.file(fs).ref_cnt
        },
    }
}

/// What `ls` answers in a file system `fs`.
pub open spec fn ls_answer(fs: FsView, dir: InodeHandle, r: Result<Vec<String>, Rejected>) -> bool {
    match r {
        Err(_) => !dir.ls_ok(fs),
        Ok(names) => {
            &&& dir.ls_ok(fs)
            &&& names@.len() == listing(dir.file(fs).content).len()
            &&& forall|k: int|
                0 <= k < names@.len() ==> encode_utf8(#[trigger] names@[k]@) == listing(
                    dir.file(fs).content,
                )[k]
        },
    }
}

/// What `read_at` answers in a file system `fs`, and what it leaves in the buffer.
pub open spec fn read_answer(
    fs: FsView,
    inode: InodeHandle,
    offset: int,
    before: Seq<u8>,
    after: Seq<u8>,
    r: Result<usize, Rejected>,
) -> bool {
    match r {
        Err(_) => !(inode.valid(fs) && offset + before.len() <= usize::MAX) && after == before,
        Ok(n) => {
            &&& inode.valid(fs)
            &&& offset + before.len() <= usize::MAX
            &&& n == span(inode.file(fs).content.len() as int, offset, before.len() as int)
            &&& after.len() == before.len()
            &&& forall|k: int|
                0 <= k < after.len() ==> #[trigger] after[k] == if k < n {
                    inode.file(fs).content[offset + k]
                } else {
                    before[k]
                }
        },
    }
}

/// What `read_all` answers in a file system `fs`.
pub open spec fn read_all_answer(
    fs: FsView,
    inode: InodeHandle,
    r: Result<Vec<u8>, Rejected>,
) -> bool {
    match r {
        Ok(all) => inode.valid(fs) && all@ == inode.file(fs).content,
        Err(_) => !inode.valid(fs),
    }
}

/// `create` takes the file system from `pre` to `post` and answers `r`.
pub open spec fn create_step(
    pre: FsView,
    post: FsView,
    dir: InodeHandle,
    name: Seq<u8>,
    r: Result<Option<InodeHandle>, Rejected>,
) -> bool {
    match r {
        Err(_) => !dir.create_ok(pre, name) && post == pre,
        Ok(made) => {
            &&& dir.create_ok(pre, name)
            &&& made == match dir.lookup_in(pre, name) {
                Some(_) => None,
                None => Some(handle_of(pre.inode_area_start, first_free(pre.used) as u32)),
            }
            &&& post == dir.after_create(pre, name)
        },
    }
}

/// `hardlink` takes the file system from `pre` to `post` and answers `r`.
pub open spec fn hardlink_step(
    pre: FsView,
    post: FsView,
    dir: InodeHandle,
    src: Seq<u8>,
    dst: Seq<u8>,
    r: Result<Option<InodeHandle>, Rejected>,
) -> bool {
    match r {
        Err(_) => !dir.hardlink_ok(pre, src, dst) && post == pre,
        Ok(made) => {
            &&& dir.hardlink_ok(pre, src, dst)
            &&& made is None
            &&& post == dir.after_hardlink(pre, src, dst)
        },
    }
}

/// `unlink` takes the file system from `pre` to `post` and answers `r`.
pub open spec fn unlink_step(
    pre: FsView,
    post: FsView,
    dir: InodeHandle,
    name: Seq<u8>,
    r: Result<Option<()>, Rejected>,
) -> bool {
    match r {
        Err(_) => !dir.unlink_ok(pre, name) && post == pre,
        Ok(done) => {
            &&& dir.unlink_ok(pre, name)
            &&& done is Some <==> dir.lookup_in(pre, name) is Some
            &&& post == dir.after_unlink(pre, name)
        },
    }
}

/// `write_at` takes the file system from `pre` to `post` and answers `r`.
pub open spec fn write_step(
    pre: FsView,
    post: FsView,
    inode: InodeHandle,
    offset: int,
    buf: Seq<u8>,
    r: Result<usize, Rejected>,
) -> bool {
    match r {
        Err(_) => !inode.write_ok(pre, offset, buf.len() as int) && post == pre,
        Ok(n) => {
            &&& inode.write_ok(pre, offset, buf.len() as int)
            &&& n == span(
                size_after_write(
                    inode.file(pre).content.len() as int,
                    offset,
                    buf.len() as int,
                ),
                offset,
                buf.len() as int,
            )
            &&& post == inode.after_write(pre, offset, buf)
        },
    }
}

/// `clear` takes the file system from `pre` to `post` and answers `r`.
pub open spec fn clear_step(
    pre: FsView,
    post: FsView,
    inode: InodeHandle,
    r: Result<(), Rejected>,
) -> bool {
    match r {
        Err(_) => !inode.valid(pre) && post == pre,
        Ok(_) => inode.valid(pre) && post == inode.after_clear(pre),
    }
}

impl EasyFileSystem {
    #[verifier::type_invariant]
    spec fn inv(self) -> bool {
        self.image.wf()
    }

    /// Puts a file system into use.
    pub fn new(image: FsImage) -> (r: EasyFileSystem)
        requires
            image.wf(),
        ensures
            r@ == image@,
            r@.sound(),
    {
        proof {
            lemma_wf_sound(image);
        }
        EasyFileSystem { image }
    }

    /// Puts a file system into use, if it is well formed.
    pub fn open(image: FsImage) -> (r: Option<EasyFileSystem>)
        ensures
            match r {
                Some(fs) => image.wf() && fs@ == image@ && fs@.sound(),
                None => !image.wf(),
            },
    {
        if image.check_wf() {
            proof {
                lemma_wf_sound(image);
            }
            Some(EasyFileSystem { image })
        } else {
            None
        }
    }

    /// The file system as it is to lie on disk.
    pub fn image(&self) -> (r: &FsImage)
        ensures
            r.wf(),
            r@ == self@,
    {
        proof {
            use_type_invariant(self);
        }
        &self.image
    }

    /// Takes the image out, to be changed; a blank one stays in its place until `put_back`.
    fn take_out(&mut self) -> (image: FsImage)
        ensures
            image.wf(),
            image@ == old(self)@,
            image@.sound(),
    {
        proof {
            use_type_invariant(&*self);
        }
        let mut image = FsImage::new(0, 1, 0);
        core::mem::swap(&mut self.image, &mut image);
        proof {
            lemma_wf_sound(image);
        }
        image
    }

    fn put_back(&mut self, image: FsImage)
        requires
            image.wf(),
        ensures
            final(self)@ == image@,
            final(self)@.sound(),
    {
        proof {
            lemma_wf_sound(image);
        }
        self.image = image;
    }

    /// Finds the inode that `name` stands for in directory `dir`.
    pub fn find(&self, dir: &InodeHandle, name: &str) -> (r: Result<Option<InodeHandle>, Rejected>)
        ensures
            find_answer(self@, *dir, encode_utf8(name@), r),
            self@.sound(),
    {
        proof {
            use_type_invariant(self);
            lemma_wf_sound(self.image);
        }
        if !dir.check_dir(&self.image) {
            return Err(Rejected);
        }
        Ok(dir.find(&self.image, name))
    }

    /// Makes an empty file in directory `dir` under the name `name`, unless the name is taken.
    pub fn create(&mut self, dir: &InodeHandle, name: &str) -> (r: Result<
        Option<InodeHandle>,
        Rejected,
    >)
        ensures
            create_step(old(self)@, final(self)@, *dir, encode_utf8(name@), r),
            old(self)@.sound(),
            final(self)@.sound(),
    {
        let mut image = self.take_out();
        let r = if dir.check_create(&image, name) {
            Ok(dir.create(&mut image, name))
        } else {
            Err(Rejected)
        };
        self.put_back(image);
        r
    }

    /// Gives the file that `src_name` stands for in directory `dir` the name `dst_name` too, unless
    /// that is taken.
    pub fn hardlink(&mut self, dir: &InodeHandle, src_name: &str, dst_name: &str) -> (r: Result<
        Option<InodeHandle>,
        Rejected,
    >)
        ensures
            hardlink_step(
                old(self)@,
                final(self)@,
                *dir,
                encode_utf8(src_name@),
                encode_utf8(dst_name@),
                r,
            ),
            old(self)@.sound(),
            final(self)@.sound(),
    {
        let mut image = self.take_out();
        let r = if dir.check_hardlink(&image, src_name, dst_name) {
            Ok(dir.hardlink(&mut image, src_name, dst_name))
        } else {
            Err(Rejected)
        };
        self.put_back(image);
        r
    }

    /// Gives up a link of the file that `name` stands for in directory `dir`.
    pub fn unlink(&mut self, dir: &InodeHandle, name: &str) -> (r: Result<Option<()>, Rejected>)
        ensures
            unlink_step(old(self)@, final(self)@, *dir, encode_utf8(name@), r),
            old(self)@.sound(),
            final(self)@.sound(),
    {
        let mut image = self.take_out();
        let r = if dir.check_unlink(&image, name) {
            Ok(dir.unlink(&mut image, name))
        } else {
            Err(Rejected)
        };
        self.put_back(image);
        r
    }

    /// The kind of an inode and its number of links.
    pub fn get_fstat(&self, inode: &InodeHandle) -> (r: Result<Stat, Rejected>)
        ensures
            stat_answer(self@, *inode, r),
            self@.sound(),
    {
        proof {
            use_type_invariant(self);
            lemma_wf_sound(self.image);
        }
        if !inode.check_valid(&self.image) {
            return Err(Rejected);
        }
        Ok(inode.get_fstat(&self.image))
    }

    /// The names in directory `dir`.
    pub fn ls(&self, dir: &InodeHandle) -> (r: Result<Vec<String>, Rejected>)
        ensures
            ls_answer(self@, *dir, r),
            self@.sound(),
    {
        proof {
            use_type_invariant(self);
            lemma_wf_sound(self.image);
        }
        if !dir.check_ls(&self.image) {
            return Err(Rejected);
        }
        Ok(dir.ls(&self.image))
    }

    /// Reads from a file.
    pub fn read_at(&self, inode: &InodeHandle, offset: usize, buf: &mut [u8]) -> (r: Result<
        usize,
        Rejected,
    >)
        ensures
            read_answer(self@, *inode, offset as int, old(buf)@, final(buf)@, r),
            self@.sound(),
    {
        proof {
            use_type_invariant(self);
            lemma_wf_sound(self.image);
        }
        if !inode.check_valid(&self.image) || offset > usize::MAX - buf.len() {
            return Err(Rejected);
        }
        Ok(inode.read_at(&self.image, offset, buf))
    }

    /// Reads the whole of a file.
    pub fn read_all(&self, inode: &InodeHandle) -> (r: Result<Vec<u8>, Rejected>)
        ensures
            read_all_answer(self@, *inode, r),
            self@.sound(),
    {
        proof {
            use_type_invariant(self);
            lemma_wf_sound(self.image);
        }
        if !inode.check_valid(&self.image) {
            return Err(Rejected);
        }
        Ok(inode.read_all(&self.image))
    }

    /// Writes to a file.
    pub fn write_at(&mut self, inode: &InodeHandle, offset: usize, buf: &[u8]) -> (r: Result<
        usize,
        Rejected,
    >)
        ensures
            write_step(old(self)@, final(self)@, *inode, offset as int, buf@, r),
            old(self)@.sound(),
            final(self)@.sound(),
    {
        let mut image = self.take_out();
        let r = if inode.check_write(&image, offset, buf.len()) {
            Ok(inode.write_at(&mut image, offset, buf))
        } else {
            Err(Rejected)
        };
        self.put_back(image);
        r
    }

    /// Empties a file.
    pub fn clear(&mut self, inode: &InodeHandle) -> (r: Result<(), Rejected>)
        ensures
            clear_step(old(self)@, final(self)@, *inode, r),
            old(self)@.sound(),
            final(self)@.sound(),
    {
        let mut image = self.take_out();
        let r = if inode.check_valid(&image) {
            inode.clear(&mut image);
            Ok(())
        } else {
            Err(Rejected)
        };
        self.put_back(image);
        r
    }
}

} // verus!
