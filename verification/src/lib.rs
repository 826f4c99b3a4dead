//! An in-memory image of a two-directory record store for exchange-rate pairs
//! and the groups that reference them, with verified read, write and
//! referential-assembly rules.

pub mod directory;
pub mod entities;
pub mod laws;
pub mod records;
pub mod store;

pub use directory::{Directory, DirectoryFile, FileView};
pub use entities::{Error, Pair, PairGroup, PairGroupView, PairView};
pub use records::{FileSystemPair, FileSystemPairGroup, GroupRecordView};
pub use store::{
    get_dir_entries, read_pair, read_pair_group, write_pair, write_pair_group, DirectoryKind,
    FileSystemDataAccess, RootDirectory, RootView, WrittenFile, WrittenFileView,
    PAIRS_DIR_NAME, PAIR_GROUPS_DIR_NAME,
};
