//! Resources of the gallery, their typed data and their dependencies.
use vstd::prelude::*;
use crate::strmap::{StrMap, map_of, deep_map, lemma_deep_items_map};
use crate::text::{chars_of, string_of, replace_char_with, replace_char};
use crate::clock::now;

verus! {

/// A point in time: seconds and nanoseconds since the Unix epoch (UTC).
/// Points compare by seconds first, then by nanoseconds.
#[derive(PartialEq, Eq, Structural, Clone, Copy, Debug)]
pub struct Timestamp {
    pub secs: i64,
    pub nanos: u32,
}

/// The name of a registered glob dependency function.
#[derive(Debug)]
pub struct DependencyFuncName(pub String);

impl Clone for DependencyFuncName {
    fn clone(&self) -> (r: Self)
        ensures
            r == *self,
    {
        DependencyFuncName(self.0.clone())
    }
}

/// How the dependencies of a generated resource are found.
#[derive(Debug)]
pub enum DependencyType {
    /// Added one by one.
    Direct,
    /// Every resource that the named function accepts.
    Glob(DependencyFuncName),
}

impl Clone for DependencyType {
    fn clone(&self) -> (r: Self)
        ensures
            r == *self,
    {
        match self {
            DependencyType::Direct => DependencyType::Direct,
            DependencyType::Glob(n) => DependencyType::Glob(n.clone()),
        }
    }
}

/// The resources a generated resource was made from: resource id to the
/// content hash it had then.
#[derive(Debug)]
pub struct Dependencies {
    dependencies: StrMap<String>,
    dep_type: DependencyType,
}

/// The abstract value of a dependency record: its entries, in order, and its type.
pub struct DependenciesView {
    pub entries: Seq<(Seq<char>, Seq<char>)>,
    pub dep_type: DependencyType,
}

impl View for Dependencies {
    type V = DependenciesView;

    closed spec fn view(&self) -> DependenciesView {
        DependenciesView { entries: self.dependencies.deep_items(), dep_type: self.dep_type }
    }
}

impl DependenciesView {
    /// Resource id to recorded content hash.
    pub open spec fn map(self) -> Map<Seq<char>, Seq<char>> {
        map_of(self.entries)
    }
}

impl Dependencies {
    /// How these dependencies are found.
    pub fn dep_type(&self) -> (t: &DependencyType)
        ensures
            *t == self@.dep_type,
    {
        &self.dep_type
    }

    /// A record holding the given dependencies.
    pub fn new(d: StrMap<String>, t: DependencyType) -> (r: Dependencies)
        ensures
            r@.entries == d.deep_items(),
            r@.dep_type == t,
            r.get_dependencies_spec() == d,
    {
        Dependencies { dependencies: d, dep_type: t }
    }

    /// An empty record of direct dependencies.
    pub fn new_default() -> (r: Dependencies)
        ensures
            r@.entries == Seq::<(Seq<char>, Seq<char>)>::empty(),
            r@.dep_type == DependencyType::Direct,
    {
        let d = StrMap::new();
        assert(d.deep_items() =~= Seq::<(Seq<char>, Seq<char>)>::empty());
        Dependencies { dependencies: d, dep_type: DependencyType::Direct }
    }

    /// The map behind the record.
    pub closed spec fn get_dependencies_spec(self) -> StrMap<String> {
        self.dependencies
    }

    /// Resource id to recorded content hash.
    pub fn get_dependencies(&self) -> (d: &StrMap<String>)
        ensures
            *d == self.get_dependencies_spec(),
            d.deep_items() == self@.entries,
    {
        &self.dependencies
    }

    /// Whether `resource` is among the dependencies.
    pub fn depends_on(&self, resource: &Resource) -> (b: bool)
        ensures
            b == self@.map().dom().contains(resource.id@),
    {
        let r = self.dependencies.contains_key(resource.id.as_str());
        proof { lemma_deep_items_map(self.dependencies); }
        r
    }

    /// Records `resource` with its current content hash. Only a record of
    /// direct dependencies takes additions.
    pub fn add_dependency(&mut self, resource: &Resource)
        requires
            old(self)@.dep_type is Direct,
        ensures
            final(self)@.map() == old(self)@.map().insert(resource.id@, resource.content_hash@),
            final(self)@.dep_type == old(self)@.dep_type,
    {
        let ghost old_deps = self.dependencies;
        self.dependencies.insert(resource.id.clone(), resource.content_hash.clone());
        proof {
            lemma_deep_items_map(old_deps);
            lemma_deep_items_map(self.dependencies);
            assert(deep_map(self.dependencies@) =~= deep_map(old_deps@).insert(resource.id@, resource.content_hash@));
        }
    }
}

/// Where a resource comes from.
#[derive(Debug)]
pub enum ResourceProvider {
    Dropbox,
    Generated(Dependencies),
}

/// The named sizes of image thumbnails.
#[derive(PartialEq, Eq, Structural, Clone, Copy, Debug, Hash)]
pub enum ThumbnailSize {
    Small,
    Medium,
    Large,
    Huge,
}

/// The lower-case name of a thumbnail size.
pub open spec fn size_label(s: ThumbnailSize) -> Seq<char> {
    match s {
        ThumbnailSize::Small => seq!['s', 'm', 'a', 'l', 'l'],
        ThumbnailSize::Medium => seq!['m', 'e', 'd', 'i', 'u', 'm'],
        ThumbnailSize::Large => seq!['l', 'a', 'r', 'g', 'e'],
        ThumbnailSize::Huge => seq!['h', 'u', 'g', 'e'],
    }
}

} // verus!

verus! {

impl ThumbnailSize {
    /// The lower-case name of the size, as the gallery prints it.
    pub fn label(&self) -> (s: String)
        ensures
            s@ == size_label(*self),
    {
        let mut s = String::new();
        let cs: Vec<char> = match self {
            ThumbnailSize::Small => vec!['s', 'm', 'a', 'l', 'l'],
            ThumbnailSize::Medium => vec!['m', 'e', 'd', 'i', 'u', 'm'],
            ThumbnailSize::Large => vec!['l', 'a', 'r', 'g', 'e'],
            ThumbnailSize::Huge => vec!['h', 'u', 'g', 'e'],
        };
        let s = string_of(&cs);
        assert(s@ =~= size_label(*self));
        s
    }
}

/// The size and dimensions of a thumbnail.
#[derive(PartialEq, Eq, Structural, Clone, Copy, Debug)]
pub struct ImageVariant {
    pub size: ThumbnailSize,
    pub width: u32,
    pub height: u32,
}

/// At most one value for each thumbnail size.
#[derive(Debug)]
pub struct BySize<T> {
    pub small: Option<T>,
    pub medium: Option<T>,
    pub large: Option<T>,
    pub huge: Option<T>,
}

/// The thumbnails of an image: for each size, the id of its thumbnail resource.
pub type ThumbnailVariants = BySize<String>;

impl Clone for BySize<String> {
    fn clone(&self) -> (r: Self)
        ensures
            r == *self,
    {
        ThumbnailVariants {
            small: clone_opt(&self.small),
            medium: clone_opt(&self.medium),
            large: clone_opt(&self.large),
            huge: clone_opt(&self.huge),
        }
    }
}

fn clone_opt(o: &Option<String>) -> (r: Option<String>)
    ensures
        r == *o,
{
    match o {
        Some(s) => Some(s.clone()),
        None => None,
    }
}

impl<T> BySize<T> {
    /// The value stored for `size`.
    pub open spec fn entry(self, size: ThumbnailSize) -> Option<T> {
        match size {
            ThumbnailSize::Small => self.small,
            ThumbnailSize::Medium => self.medium,
            ThumbnailSize::Large => self.large,
            ThumbnailSize::Huge => self.huge,
        }
    }

    /// The number of sizes that have a thumbnail.
    pub open spec fn count(self) -> nat {
        (if self.small is Some { 1nat } else { 0nat }) + (if self.medium is Some { 1nat } else { 0nat })
            + (if self.large is Some { 1nat } else { 0nat }) + (if self.huge is Some { 1nat } else { 0nat })
    }

    /// No thumbnails.
    pub fn new() -> (r: Self)
        ensures
            forall|s: ThumbnailSize| r.entry(s) is None,
    {
        BySize { small: None, medium: None, large: None, huge: None }
    }

    /// The thumbnail id for `size`, if there is one.
    pub fn get(&self, size: &ThumbnailSize) -> (r: Option<&T>)
        ensures
            r matches Some(id) ==> self.entry(*size) == Some(*id),
            r is None <==> self.entry(*size) is None,
    {
        match size {
            ThumbnailSize::Small => self.small.as_ref(),
            ThumbnailSize::Medium => self.medium.as_ref(),
            ThumbnailSize::Large => self.large.as_ref(),
            ThumbnailSize::Huge => self.huge.as_ref(),
        }
    }

    /// Whether `size` has a thumbnail.
    pub fn contains_key(&self, size: &ThumbnailSize) -> (b: bool)
        ensures
            b == self.entry(*size) is Some,
    {
        self.get(size).is_some()
    }

    /// Records the thumbnail id for `size`.
    pub fn insert(&mut self, size: ThumbnailSize, id: T)
        ensures
            final(self).entry(size) == Some(id),
            forall|s: ThumbnailSize| s != size ==> final(self).entry(s) == old(self).entry(s),
    {
        match size {
            ThumbnailSize::Small => self.small = Some(id),
            ThumbnailSize::Medium => self.medium = Some(id),
            ThumbnailSize::Large => self.large = Some(id),
            ThumbnailSize::Huge => self.huge = Some(id),
        }
    }

    /// The number of sizes that have a thumbnail.
    pub fn len(&self) -> (n: usize)
        ensures
            n == self.count(),
    {
        let mut n: usize = 0;
        if self.small.is_some() { n = n + 1; }
        if self.medium.is_some() { n = n + 1; }
        if self.large.is_some() { n = n + 1; }
        if self.huge.is_some() { n = n + 1; }
        n
    }
}

/// What the gallery knows of a published photograph.
#[derive(Debug)]
pub struct ImageMetadata {
    pub name: String,
    pub date: Timestamp,
    pub colour: String,
    pub variants: ThumbnailVariants,
}

impl Clone for ImageMetadata {
    fn clone(&self) -> (r: Self)
        ensures
            r == *self,
    {
        ImageMetadata {
            name: self.name.clone(),
            date: self.date,
            colour: self.colour.clone(),
            variants: self.variants.clone(),
        }
    }
}

/// Whether `id` is one of `ids`.
pub open spec fn contains_id(ids: Seq<String>, id: Seq<char>) -> bool {
    exists|i: int| 0 <= i < ids.len() && ids[i]@ == id
}

fn id_listed(ids: &Vec<String>, id: &String) -> (b: bool)
    ensures
        b == contains_id(ids@, id@),
{
    let mut i: usize = 0;
    while i < ids.len()
        invariant
            i <= ids@.len(),
            forall|j: int| 0 <= j < i ==> ids@[j]@ != id@,
        decreases ids@.len() - i,
    {
        if ids[i] == *id {
            return true;
        }
        i = i + 1;
    }
    false
}

fn keep_if_listed(o: &Option<String>, ids: &Vec<String>) -> (r: Option<String>)
    ensures
        r == (match *o {
            Some(id) => if contains_id(ids@, id@) { Some(id) } else { None },
            None => None,
        }),
{
    match o {
        Some(id) => if id_listed(ids, id) { Some(id.clone()) } else { None },
        None => None,
    }
}

impl ImageMetadata {
    /// Forgets every thumbnail whose id is not among `valid_ids`.
    pub fn prune(&mut self, valid_ids: &Vec<String>)
        ensures
            final(self).name == old(self).name,
            final(self).date == old(self).date,
            final(self).colour == old(self).colour,
            forall|s: ThumbnailSize| #[trigger] final(self).variants.entry(s) == (match old(self).variants.entry(s) {
                Some(id) => if contains_id(valid_ids@, id@) { Some(id) } else { None },
                None => None,
            }),
    {
        let v = BySize {
            small: keep_if_listed(&self.variants.small, valid_ids),
            medium: keep_if_listed(&self.variants.medium, valid_ids),
            large: keep_if_listed(&self.variants.large, valid_ids),
            huge: keep_if_listed(&self.variants.huge, valid_ids),
        };
        self.variants = v;
    }
}

/// A site configuration file.
#[derive(Debug)]
pub struct SiteDataConfig {
    pub filename: String,
}

impl Clone for SiteDataConfig {
    fn clone(&self) -> (r: Self)
        ensures
            r == *self,
    {
        SiteDataConfig { filename: self.filename.clone() }
    }
}

/// A data file that the tools generated.
#[derive(Debug)]
pub struct GeneratedDataDesc {
    pub name: String,
}

impl Clone for GeneratedDataDesc {
    fn clone(&self) -> (r: Self)
        ensures
            r == *self,
    {
        GeneratedDataDesc { name: self.name.clone() }
    }
}

/// The typed content of a resource.
#[derive(Debug)]
pub enum ResourceData {
    Image(ImageMetadata),
    Thumbnail(ImageVariant),
    Sitedata(SiteDataConfig),
    GeneratedData(GeneratedDataDesc),
    TeraTemplate(String),
}

impl Clone for ResourceData {
    fn clone(&self) -> (r: Self)
        ensures
            r == *self,
    {
        match self {
            ResourceData::Image(m) => ResourceData::Image(m.clone()),
            ResourceData::Thumbnail(v) => ResourceData::Thumbnail(*v),
            ResourceData::Sitedata(c) => ResourceData::Sitedata(c.clone()),
            ResourceData::GeneratedData(g) => ResourceData::GeneratedData(g.clone()),
            ResourceData::TeraTemplate(t) => ResourceData::TeraTemplate(t.clone()),
        }
    }
}

/// A kind of resource content that can be read out of `ResourceData`.
pub trait ResourceDataType: Sized {
    /// The content of this kind held by `data`, if `data` is of this kind.
    spec fn from_data(data: ResourceData) -> Option<Self>;

    /// The content of this kind held by `data`, if `data` is of this kind.
    fn convert(data: &ResourceData) -> (r: Option<&Self>)
        ensures
            match r {
                Some(x) => Self::from_data(*data) == Some(*x),
                None => Self::from_data(*data) is None,
            };
}

impl ResourceDataType for ImageMetadata {
    open spec fn from_data(data: ResourceData) -> Option<Self> {
        match data {
            ResourceData::Image(s) => Some(s),
            _ => None,
        }
    }

    fn convert(data: &ResourceData) -> (r: Option<&ImageMetadata>) {
        match data {
            ResourceData::Image(s) => Some(s),
            _ => None,
        }
    }
}

impl ResourceDataType for ImageVariant {
    open spec fn from_data(data: ResourceData) -> Option<Self> {
        match data {
            ResourceData::Thumbnail(s) => Some(s),
            _ => None,
        }
    }

    fn convert(data: &ResourceData) -> (r: Option<&ImageVariant>) {
        match data {
            ResourceData::Thumbnail(s) => Some(s),
            _ => None,
        }
    }
}

impl ResourceDataType for SiteDataConfig {
    open spec fn from_data(data: ResourceData) -> Option<Self> {
        match data {
            ResourceData::Sitedata(s) => Some(s),
            _ => None,
        }
    }

    fn convert(data: &ResourceData) -> (r: Option<&SiteDataConfig>) {
        match data {
            ResourceData::Sitedata(s) => Some(s),
            _ => None,
        }
    }
}

impl ResourceDataType for GeneratedDataDesc {
    open spec fn from_data(data: ResourceData) -> Option<Self> {
        match data {
            ResourceData::GeneratedData(s) => Some(s),
            _ => None,
        }
    }

    fn convert(data: &ResourceData) -> (r: Option<&GeneratedDataDesc>) {
        match data {
            ResourceData::GeneratedData(s) => Some(s),
            _ => None,
        }
    }
}

impl ResourceData {
    /// The content of kind `T`, if the data is of that kind.
    pub fn to_value<T: ResourceDataType>(&self) -> (r: Option<&T>)
        ensures
            match r {
                Some(x) => T::from_data(*self) == Some(*x),
                None => T::from_data(*self) is None,
            },
    {
        T::convert(self)
    }
}

} // verus!

verus! {

/// The text after the last `/` of a path.
pub open spec fn last_segment(p: Seq<char>) -> Seq<char>
    decreases p.len(),
{
    if p.len() == 0 || p.last() == '/' {
        Seq::empty()
    } else {
        last_segment(p.drop_last()).push(p.last())
    }
}

/// A path without its trailing separators and trailing `.` components, which
/// `std::path::Path` passes over when it reads the components.
pub open spec fn trimmed_path(p: Seq<char>) -> Seq<char>
    decreases p.len(),
{
    if p.len() > 0 && (p.last() == '/' || (p.last() == '.' && p.len() >= 2 && p[p.len() - 2] == '/')) {
        trimmed_path(p.drop_last())
    } else {
        p
    }
}

/// The last component of a path: the text after the last `/` once trailing
/// separators and `.` components are passed over.
pub open spec fn file_name(p: Seq<char>) -> Seq<char> {
    last_segment(trimmed_path(p))
}

/// A path names a file, as `std::path::Path::file_name` has one: its last
/// component is neither the root, `.` nor `..`.
pub open spec fn names_file(p: Seq<char>) -> bool {
    &&& file_name(p).len() > 0
    &&& file_name(p) != seq!['.']
    &&& file_name(p) != seq!['.', '.']
}

/// `std::path::Path::file_name` of a path given as text: its last
/// component, when that is neither the root, `.` nor `..`.
pub fn path_file_name(p: &str) -> (r: Option<String>)
    ensures
        names_file(p@) <==> r is Some,
        r matches Some(n) ==> n@ == file_name(p@),
{
    let cs = chars_of(p);
    let mut end: usize = cs.len();
    assert(cs@.take(end as int) =~= cs@);
    while end > 0 && (cs[end - 1] == '/' || (cs[end - 1] == '.' && end >= 2 && cs[end - 2] == '/'))
        invariant
            end <= cs@.len(),
            cs@ == p@,
            trimmed_path(cs@.take(end as int)) == trimmed_path(cs@),
        decreases end,
    {
        proof {
            let t = cs@.take(end as int);
            assert(t.drop_last() =~= cs@.take(end - 1));
            assert(t.last() == cs@[end - 1]);
            if end >= 2 {
                assert(t[t.len() - 2] == cs@[end - 2]);
            }
        }
        end = end - 1;
    }
    let ghost t = cs@.take(end as int);
    proof {
        if end > 0 {
            assert(t.last() == cs@[end - 1]);
            if end >= 2 {
                assert(t[t.len() - 2] == cs@[end - 2]);
            }
        }
        assert(trimmed_path(t) == t);
    }
    let mut start: usize = end;
    assert(t.take(start as int) =~= t);
    assert(t.skip(start as int) =~= Seq::<char>::empty());
    assert(last_segment(t) =~= last_segment(t.take(start as int)) + t.skip(start as int));
    while start > 0 && cs[start - 1] != '/'
        invariant
            start <= end <= cs@.len(),
            t == cs@.take(end as int),
            last_segment(t) == last_segment(t.take(start as int)) + t.skip(start as int),
        decreases start,
    {
        proof {
            let u = t.take(start as int);
            assert(u.drop_last() =~= t.take(start - 1));
            assert(t.skip(start - 1) =~= seq![u.last()] + t.skip(start as int));
            assert(u.last() == cs@[start - 1]);
            assert(last_segment(u) == last_segment(u.drop_last()).push(u.last()));
        }
        start = start - 1;
    }
    proof {
        let u = t.take(start as int);
        if start > 0 {
            assert(u.last() == cs@[start - 1]);
        }
        assert(last_segment(u) =~= Seq::<char>::empty());
    }
    let mut out: Vec<char> = Vec::new();
    let mut i: usize = start;
    while i < end
        invariant
            start <= i <= end <= cs@.len(),
            out@ == cs@.subrange(start as int, i as int),
        decreases end - i,
    {
        out.push(cs[i]);
        i = i + 1;
    }
    assert(out@ =~= t.skip(start as int));
    let n = out.len();
    if n == 0 || (n == 1 && out[0] == '.') || (n == 2 && out[0] == '.' && out[1] == '.') {
        assert(!names_file(p@)) by {
            if n == 1 { assert(out@ =~= seq!['.']); }
            if n == 2 { assert(out@ =~= seq!['.', '.']); }
        }
        None
    } else {
        assert(names_file(p@)) by {
            if out@ == seq!['.'] { assert(out@[0] == '.'); }
            if out@ == seq!['.', '.'] { assert(out@[0] == '.' && out@[1] == '.'); }
        }
        Some(string_of(&out))
    }
}


/// The position of the last `.` in a text, or -1 when it has none.
pub open spec fn last_dot(s: Seq<char>) -> int
    decreases s.len(),
{
    if s.len() == 0 {
        -1
    } else if s.last() == '.' {
        s.len() - 1
    } else {
        last_dot(s.drop_last())
    }
}

/// The position of the last `.` of `s`, if it has one.
pub fn find_last_dot(s: &String) -> (r: Option<usize>)
    ensures
        match r {
            Some(d) => d == last_dot(s@) && d < s@.len(),
            None => last_dot(s@) == -1,
        },
{
    let cs = chars_of(s.as_str());
    let mut i: usize = cs.len();
    assert(cs@.take(i as int) =~= cs@);
    while i > 0 && cs[i - 1] != '.'
        invariant
            i <= cs@.len(),
            cs@ == s@,
            last_dot(cs@) == last_dot(cs@.take(i as int)),
        decreases i,
    {
        proof {
            let t = cs@.take(i as int);
            assert(t.drop_last() =~= cs@.take(i - 1));
            assert(t.last() == cs@[i - 1]);
        }
        i = i - 1;
    }
    if i == 0 {
        None
    } else {
        proof {
            let t = cs@.take(i as int);
            assert(t.last() == cs@[i - 1]);
        }
        Some(i - 1)
    }
}

/// A path is absolute when it starts at the root.
pub open spec fn is_absolute(p: Seq<char>) -> bool {
    p.len() > 0 && p[0] == '/'
}

/// Where a dependency record's resource comes from, abstractly.
pub enum ProviderView {
    Dropbox,
    Generated(DependenciesView),
}

impl View for ResourceProvider {
    type V = ProviderView;

    open spec fn view(&self) -> ProviderView {
        match self {
            ResourceProvider::Dropbox => ProviderView::Dropbox,
            ResourceProvider::Generated(d) => ProviderView::Generated(d@),
        }
    }
}

impl Clone for Dependencies {
    fn clone(&self) -> (r: Self)
        ensures
            r@ == self@,
    {
        let d = self.dependencies.clone();
        assert(d.deep_items() =~= self.dependencies.deep_items());
        Dependencies { dependencies: d, dep_type: self.dep_type.clone() }
    }
}

impl Clone for ResourceProvider {
    fn clone(&self) -> (r: Self)
        ensures
            r@ == self@,
    {
        match self {
            ResourceProvider::Dropbox => ResourceProvider::Dropbox,
            ResourceProvider::Generated(d) => ResourceProvider::Generated(d.clone()),
        }
    }
}

/// One file of the gallery with what is known of it.
#[derive(Debug)]
pub struct Resource {
    pub date_created: Timestamp,
    pub id: String,
    pub content_hash: String,
    pub resource_provider: ResourceProvider,
    pub resource_data: ResourceData,
    pub path: String,
}

/// The abstract value of a resource.
pub struct ResourceView {
    pub date_created: Timestamp,
    pub id: Seq<char>,
    pub content_hash: Seq<char>,
    pub provider: ProviderView,
    pub data: ResourceData,
    pub path: Seq<char>,
}

impl View for Resource {
    type V = ResourceView;

    open spec fn view(&self) -> ResourceView {
        ResourceView {
            date_created: self.date_created,
            id: self.id@,
            content_hash: self.content_hash@,
            provider: self.resource_provider@,
            data: self.resource_data,
            path: self.path@,
        }
    }
}

impl Clone for Resource {
    fn clone(&self) -> (r: Self)
        ensures
            r@ == self@,
    {
        Resource {
            date_created: self.date_created,
            id: self.id.clone(),
            content_hash: self.content_hash.clone(),
            resource_provider: self.resource_provider.clone(),
            resource_data: self.resource_data.clone(),
            path: self.path.clone(),
        }
    }
}

impl Resource {
    /// A resource created now, with the given path, data, id, content hash and
    /// provider.
    pub fn new(path: &str, data: ResourceData, id: &str, content_hash: &str, provider: ResourceProvider) -> (r: Resource)
        ensures
            r.path@ == path@,
            r.resource_data == data,
            r.id@ == id@,
            r.content_hash@ == content_hash@,
            r.resource_provider == provider,
    {
        Resource {
            date_created: now(),
            id: id.to_string(),
            content_hash: content_hash.to_string(),
            resource_provider: provider,
            resource_data: data,
            path: path.to_string(),
        }
    }

    /// The id of the resource.
    pub fn id(&self) -> (s: &str)
        ensures
            s@ == self.id@,
    {
        self.id.as_str()
    }

    /// The content of kind `T`; the resource must hold that kind.
    pub fn as_data<T: ResourceDataType>(&self) -> (r: &T)
        requires
            T::from_data(self.resource_data) is Some,
        ensures
            T::from_data(self.resource_data) == Some(*r),
    {
        self.resource_data.to_value::<T>().unwrap()
    }

    /// The content of kind `T`, if the resource holds that kind.
    pub fn try_data<T: ResourceDataType>(&self) -> (r: Option<&T>)
        ensures
            match r {
                Some(x) => T::from_data(self.resource_data) == Some(*x),
                None => T::from_data(self.resource_data) is None,
            },
    {
        self.resource_data.to_value::<T>()
    }

    /// The file name: the last component of the path.
    pub fn get_filename(&self) -> (s: String)
        requires
            names_file(self.path@),
        ensures
            s@ == file_name(self.path@),
    {
        path_file_name(self.path.as_str()).unwrap()
    }

    /// The path as a URL path: each space written `%20`.
    pub fn url_path(&self) -> (s: String)
        ensures
            s@ == replace_char(self.path@, ' ', seq!['%', '2', '0']),
    {
        proof { reveal_strlit("%20"); }
        let s = replace_char_with(self.path.as_str(), ' ', "%20");
        assert("%20"@ =~= seq!['%', '2', '0']);
        s
    }

    /// The path of the resource.
    pub fn path(&self) -> (p: &str)
        ensures
            p@ == self.path@,
    {
        self.path.as_str()
    }

    /// Moves the resource to a relative path.
    pub fn set_relative_path(&mut self, path: &str)
        requires
            !is_absolute(path@),
        ensures
            final(self)@ == (ResourceView { path: path@, ..old(self)@ }),
    {
        self.path = path.to_string();
    }
}

/// All resources of the gallery, by id.
#[derive(Debug)]
pub struct Resources {
    pub resources: StrMap<Resource>,
}

impl Resources {
    /// A resource that `f` accepts, if there is one: the first in order.
    pub fn find_resource<F: Fn(&Resource) -> bool>(&self, f: F) -> (r: Option<&Resource>)
        requires
            forall|x: &Resource| #[trigger] f.requires((x,)),
        ensures
            r matches Some(x) ==> exists|i: int| 0 <= i < self.resources.items().len()
                && self.resources.items()[i].1 == *x && f.ensures((x,), true),
            r is None ==> forall|i: int| 0 <= i < self.resources.items().len()
                ==> f.ensures((&self.resources.items()[i].1,), false),
    {
        let n = self.resources.len();
        let mut i: usize = 0;
        while i < n
            invariant
                i <= n == self.resources.items().len(),
                forall|x: &Resource| #[trigger] f.requires((x,)),
                forall|j: int| 0 <= j < i ==> f.ensures((&self.resources.items()[j].1,), false),
            decreases n - i,
        {
            let x = self.resources.value_at(i);
            if f(x) {
                return Some(x);
            }
            i = i + 1;
        }
        None
    }

    /// A resource holding content of kind `T` that `f` accepts, if there is
    /// one: the first in order.
    pub fn find_data<T: ResourceDataType, F: Fn(&T) -> bool>(&self, f: F) -> (r: Option<&Resource>)
        requires
            forall|x: &T| #[trigger] f.requires((x,)),
        ensures
            r matches Some(x) ==> exists|i: int| 0 <= i < self.resources.items().len()
                && self.resources.items()[i].1 == *x
                && (T::from_data(x.resource_data) matches Some(t) && f.ensures((&t,), true)),
            r is None ==> forall|i: int| 0 <= i < self.resources.items().len()
                ==> (T::from_data(#[trigger] self.resources.items()[i].1.resource_data) matches Some(t)
                    ==> f.ensures((&t,), false)),
    {
        let n = self.resources.len();
        let mut i: usize = 0;
        while i < n
            invariant
                i <= n == self.resources.items().len(),
                forall|x: &T| #[trigger] f.requires((x,)),
                forall|j: int| 0 <= j < i ==> (T::from_data(#[trigger] self.resources.items()[j].1.resource_data) matches Some(t)
                    ==> f.ensures((&t,), false)),
            decreases n - i,
        {
            let x = self.resources.value_at(i);
            match x.resource_data.to_value::<T>() {
                Some(t) => {
                    if f(t) {
                        return Some(x);
                    }
                },
                None => {},
            }
            i = i + 1;
        }
        None
    }
}

} // verus!

verus! {

/// Resource `x` was generated from the resource with id `id`.
pub open spec fn depends_on_id(x: Resource, id: Seq<char>) -> bool {
    match x.resource_provider {
        ResourceProvider::Generated(d) => d@.map().dom().contains(id),
        _ => false,
    }
}

/// Every resource is filed under its own id.
pub open spec fn ids_match(m: Map<Seq<char>, Resource>) -> bool {
    forall|k: Seq<char>| #[trigger] m.dom().contains(k) ==> m[k].id@ == k
}

} // verus!
