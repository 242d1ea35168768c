//! When a log file handle reads nothing, the file may have been rotated:
//! a new file now stands under the same name. These are the decisions of a
//! read; opening and reading the file is the caller's part.
use vstd::prelude::*;

verus! {

/// What happened at the last step of a read.
#[derive(Debug, Clone, Copy, PartialEq, Eq)]
pub enum ReadEvent {
    /// The open handle gave this many bytes.
    BlockRead(usize),
    /// The file now under the handle's name has this inode.
    FileInode(u64),
    /// After reopening the file by name, the new handle gave this many bytes.
    ReopenedRead(usize),
}

/// What the read does next.
#[derive(Debug, Clone, Copy, PartialEq, Eq)]
pub enum ReadAction {
    /// Return this many bytes as the result of the read.
    Return(usize),
    /// Look up the inode of the file under the handle's name.
    CheckRotation,
    /// Reopen the file by name and read from the new handle.
    ReopenAndRead,
}

/// The next action of a read by a handle that opened the file with inode
/// `opened_inode`: bytes read are returned; an empty read leads to a check
/// of the file under the same name, which is reopened and read when its
/// inode differs, and otherwise the empty read is returned.
pub fn next_read_action(opened_inode: u64, event: ReadEvent) -> (action: ReadAction)
    ensures
        match event {
            ReadEvent::BlockRead(len) => if len == 0 {
                action == ReadAction::CheckRotation
            } else {
                action == ReadAction::Return(len)
            },
            ReadEvent::FileInode(inode) => if inode != opened_inode {
                action == ReadAction::ReopenAndRead
            } else {
                action == ReadAction::Return(0)
            },
            ReadEvent::ReopenedRead(len) => action == ReadAction::Return(len),
        },
{
    match event {
        ReadEvent::BlockRead(len) => if len == 0 {
            ReadAction::CheckRotation
        } else {
            ReadAction::Return(len)
        },
        ReadEvent::FileInode(inode) => if inode != opened_inode {
            ReadAction::ReopenAndRead
        } else {
            ReadAction::Return(0)
        },
        ReadEvent::ReopenedRead(len) => ReadAction::Return(len),
    }
}

} // verus!
