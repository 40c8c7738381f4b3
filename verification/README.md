# rcore_kernel

The system calls of a small teaching kernel (files, processes, memory mapping,
synchronization) and the virtual-file-system layer of its file system, easy-fs,
verified with Verus.

## Layout

- `src/vfs.rs`: easy-fs as a sequence of disk inodes (files, hard links and the root
  directory) and the `Inode` handle with its operations: find, create, link, delete,
  list, read, write, clear, and the link count, mode and inode number.
- `src/blocks.rs`: how many disk blocks (data and index) an inode of a given size
  occupies, and the blocks all inodes occupy; the file system counts the data blocks its
  bitmap has handed out against its capacity.
- `src/file.rs`: open files (the console and files with an offset), descriptor
  allocation and how a path is opened.
- `src/mm.rs`: Sv39 virtual addresses, pages and the user pages of an address space.
- `src/task.rs`: the state of the current process: children, program break, and the
  tables of mutexes, semaphores and condition variables with the bookkeeping that
  deadlock detection reads.
- `src/table.rs`: tables in which a new object takes the first free slot.
- `src/syscall/{fs,process,sync}.rs`: the system calls, each over the state it reads
  and changes, with its contract.
- `src/laws.rs`: properties that relate several operations (a name linked is found, a
  name removed is not, what is written is read back, unmapping undoes mapping, a lock
  and an unlock leave the bookkeeping as it was, ...).
- `app/lib.rs`: the layer the trap handler calls, with user addresses: it reads and
  writes user memory, takes the file-system lock (`spin`), logs (`log`), and leaves
  scheduling, loading, the clock and the blocking primitives to the rest of the kernel.
- `tests/`: tests of the library on concrete values.
