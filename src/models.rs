//! The data types of the listing engine.

use vstd::prelude::*;

verus! {

/// A metadata kind that a listing may ask for.
#[derive(Clone, Copy, Debug, PartialEq, Eq, Hash, PartialOrd, Ord, Structural)]
pub enum MetaType {
    Sz,
    Tm,
    Mt,
    Ext,
}

/// A key of the multi-key ordering.
#[derive(Clone, Copy, Debug, PartialEq, Eq, Hash, Structural)]
pub enum OrderBy {
    Dir,
    Nm,
    Sz,
    Tm,
    Mt,
    Ext,
}

/// The direction of one key of the ordering.
#[derive(Clone, Copy, Debug, PartialEq, Eq, Hash, Structural)]
pub enum OrderAsc {
    Asc,
    Desc,
}

/// The well-known directories that a caller may ask to have resolved.
#[derive(Clone, Copy, Debug, PartialEq, Eq, Hash, Structural)]
pub enum HomeType {
    RootDir,
    HomeDir,
    DownloadDir,
    VideoDir,
    DocumentDir,
    DesktopDir,
    PictureDir,
    AudioDir,
    ConfigDir,
    DataDir,
    DataLocalDir,
    CacheDir,
    FontDir,
    PublicDir,
    ExecutableDir,
    RuntimeDir,
    TemplateDir,
}

/// One (key, direction) pair of an ordering.
#[derive(Clone, Copy, Debug, PartialEq, Eq, Hash, Structural)]
pub struct OrdItem {
    pub nm: OrderBy,
    pub asc: OrderAsc,
}

/// A mounted volume.
#[derive(Clone, Debug, PartialEq, Eq, Hash)]
pub struct DiskInfo {
    pub path: String,
}

/// A modification time as seconds and nanoseconds since the Unix epoch.
#[derive(Clone, Copy, Debug, PartialEq, Eq, Hash, Structural)]
pub struct ModTime {
    pub secs: u64,
    pub nanos: u32,
}

/// The fingerprint of a cached listing: cache name, absolute path, the
/// directory's modification time, and the metadata kinds as an ordered set.
#[derive(Clone, Debug, PartialEq, Eq, Hash)]
pub struct CacheKey {
    pub nm: String,
    pub path: String,
    pub tm: ModTime,
    pub meta_types: Vec<MetaType>,
}

/// A fingerprint without the metadata kinds.
#[derive(Clone, Debug, PartialEq, Eq, Hash)]
pub struct CachePathsKey {
    pub nm: String,
    pub path: String,
    pub tm: ModTime,
}

/// A fingerprint of a single file.
#[derive(Clone, Debug, PartialEq, Eq, Hash)]
pub struct CacheFileKey {
    pub nm: String,
    pub path: String,
    pub tm: ModTime,
}

/// A cached listing and the ordering under which it is sorted.
#[derive(Clone, Debug)]
pub struct CacheVal {
    pub items: Vec<Item>,
    pub ordering: Vec<OrdItem>,
}

/// The result of a listing request: the target item, its children after
/// pagination, and the pagination window that was applied.
#[derive(Clone, Debug)]
pub struct Folder {
    pub item: Item,
    pub items: Option<Vec<Item>>,
    pub path_param: String,
    pub base_nm: String,
    pub tot: Option<usize>,
    pub cnt: Option<usize>,
    pub skip_n: Option<usize>,
    pub take_n: Option<usize>,
    pub ordering: Option<Vec<OrdItem>>,
}

/// One filesystem entry with the metadata that was asked for.
#[derive(Clone, Debug)]
pub struct Item {
    pub nm: String,
    pub dir: bool,
    pub ext: Option<String>,
    pub mt: Option<String>,
    pub sz: Option<u64>,
    pub tm: Option<u64>,
}

/// The content of a text file, with its detected MIME type and encoding.
#[derive(Clone, Debug, Default)]
pub struct TextContent {
    pub path: String,
    pub mimetype: String,
    pub enc: Option<String>,
    pub text: Option<String>,
}

/// A listing request in which every field may be left out.
#[derive(Clone, Debug, Default)]
pub struct OptParams {
    pub path_str: Option<String>,
    pub meta_types: Option<Vec<MetaType>>,
    pub ordering: Option<Vec<OrdItem>>,
    pub skip_n: Option<usize>,
    pub take_n: Option<usize>,
    pub is_pretty: Option<bool>,
    pub cache_nm: Option<String>,
}

/// A listing request.
#[derive(Clone, Debug)]
pub struct Params {
    pub path_str: String,
    pub meta_types: Vec<MetaType>,
    pub ordering: Vec<OrdItem>,
    pub skip_n: Option<usize>,
    pub take_n: Option<usize>,
    pub is_pretty: bool,
    pub cache_nm: Option<String>,
}

/// The ordering used when a request gives none: directories first, then by name.
pub open spec fn default_ordering() -> Seq<OrdItem> {
    seq![OrdItem { nm: OrderBy::Dir, asc: OrderAsc::Asc }, OrdItem { nm: OrderBy::Nm, asc: OrderAsc::Asc }]
}

/// The metadata kinds asked for when a request gives none: size and time.
pub open spec fn default_meta_types() -> Seq<MetaType> {
    seq![MetaType::Sz, MetaType::Tm]
}

/// The ordering used when a request gives none.
pub fn default_ordering_vec() -> (r: Vec<OrdItem>)
    ensures
        r@ == default_ordering(),
{
    let r = vec![OrdItem { nm: OrderBy::Dir, asc: OrderAsc::Asc }, OrdItem { nm: OrderBy::Nm, asc: OrderAsc::Asc }];
    assert(r@ =~= default_ordering());
    r
}

/// The metadata kinds asked for when a request gives none.
pub fn default_meta_types_vec() -> (r: Vec<MetaType>)
    ensures
        r@ == default_meta_types(),
{
    let r = vec![MetaType::Sz, MetaType::Tm];
    assert(r@ =~= default_meta_types());
    r
}

impl Default for Params {
    fn default() -> (r: Params)
        ensures
            r.path_str@ == seq!['.'],
            r.meta_types@ == default_meta_types(),
            r.ordering@ == default_ordering(),
            r.skip_n.is_none(),
            r.take_n == Some(5usize),
            r.is_pretty,
            r.cache_nm.is_none(),
    {
        let path_str = String::from_str(".");
        proof {
            reveal_strlit(".");
        }
        Params {
            path_str,
            meta_types: default_meta_types_vec(),
            ordering: default_ordering_vec(),
            skip_n: None,
            take_n: Some(5),
            is_pretty: true,
            cache_nm: None,
        }
    }
}

/// The errors of the listing engine.
#[derive(Clone, Debug)]
pub enum ApiError {
    Io(String),
    Json(String),
    Folder(String),
    DirApi(String),
}

impl ApiError {
    /// The message of the error, prefixed with its kind.
    pub fn message(&self) -> (r: String)
        ensures
            r@ == self.kind_prefix() + self.detail(),
    {
        let (prefix, detail) = match self {
            ApiError::Io(s) => ("IO error: ", s),
            ApiError::Json(s) => ("JSON error: ", s),
            ApiError::Folder(s) => ("Folder error: ", s),
            ApiError::DirApi(s) => ("windows::core::Error: ", s),
        };
        proof {
            reveal_strlit("IO error: ");
            reveal_strlit("JSON error: ");
            reveal_strlit("Folder error: ");
            reveal_strlit("windows::core::Error: ");
        }
        let mut r = String::from_str(prefix);
        r.append(detail.as_str());
        r
    }

    /// The text that names the kind of the error.
    pub open spec fn kind_prefix(&self) -> Seq<char> {
        match self {
            ApiError::Io(_) => "IO error: "@,
            ApiError::Json(_) => "JSON error: "@,
            ApiError::Folder(_) => "Folder error: "@,
            ApiError::DirApi(_) => "windows::core::Error: "@,
        }
    }

    /// The detail that the error carries.
    pub open spec fn detail(&self) -> Seq<char> {
        match self {
            ApiError::Io(s) => s@,
            ApiError::Json(s) => s@,
            ApiError::Folder(s) => s@,
            ApiError::DirApi(s) => s@,
        }
    }
}

} // verus!
