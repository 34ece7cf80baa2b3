# easy_kernel

The virtual file system layer and the process system calls of a small teaching kernel, written and
proved in Verus.

- `block`, `layout`, `dirent`, `image`: the file system on disk. Data blocks and their bitmap, disk
  inodes, directory entries, and the table that holds them together.
- `handle`: what can be done to an inode of an image, with exact effects.
- `efs`: a file system in use. It is well formed at all times, and rejects what cannot be done.
- `vfs`: inodes that share a file system behind a spin lock.
- `mm`, `task`: a task's memory, and the tree of tasks with its queue. A kernel is well formed at all
  times.
- `process`: the system calls.
- `fs_laws`, `process_laws`: what holds of the operations taken together.

`app/` connects the library with user memory, the clock, the processor and the block device.
