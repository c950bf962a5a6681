//! Where resources live under the gallery root.
use vstd::prelude::*;
use crate::text::push_str;
use crate::datamodel::datamodel::{Resource, names_file, file_name, last_dot, find_last_dot, path_file_name};
use crate::text::char_range;

verus! {

/// The two folders that fetched resources are filed in.
#[derive(PartialEq, Eq, Structural, Clone, Copy, Debug)]
pub enum ResourceFilter {
    Data,
    Images,
}

/// Joining a path onto a base, as `std::path::Path::join` documents it on
/// Unix: an absolute path replaces the base; otherwise the path is appended,
/// with a `/` between unless the base is empty or already ends with one.
pub open spec fn path_join_spec(base: Seq<char>, p: Seq<char>) -> Seq<char> {
    if p.len() > 0 && p[0] == '/' {
        p
    } else if base.len() == 0 || base.last() == '/' {
        base + p
    } else {
        base + seq!['/'] + p
    }
}

/// The extension of a path as `std::path::Path::extension` documents it:
/// none without a file name; none when the file name has no `.` but
/// perhaps a first one; else what follows the file name's last `.`.
pub open spec fn std_path_extension(p: Seq<char>) -> Option<Seq<char>> {
    if !names_file(p) {
        None
    } else {
        let n = file_name(p);
        let d = last_dot(n);
        if d <= 0 { None } else { Some(n.skip(d + 1)) }
    }
}

/// `std::path::Path::join` on two paths given as text.
#[verifier::external_body]
pub(crate) fn path_join(base: &str, p: &str) -> (r: String)
    ensures
        r@ == path_join_spec(base@, p@),
{
    std::path::Path::new(base).join(p).to_string_lossy().into_owned()
}

/// The extension of a path given as text, as `std::path::Path::extension`
/// finds it.
pub(crate) fn path_extension(p: &str) -> (r: Option<String>)
    ensures
        match r {
            Some(e) => std_path_extension(p@) == Some(e@),
            None => std_path_extension(p@) is None,
        },
{
    let name = match path_file_name(p) {
        Some(n) => n,
        None => return None,
    };
    match find_last_dot(&name) {
        Some(d) => if d == 0 {
            None
        } else {
            let len = crate::text::chars_of(name.as_str()).len();
            Some(char_range(name.as_str(), d + 1, len))
        },
        None => None,
    }
}

/// The folder, under the root, that a resource of the given name and kind
/// is filed in: images go to `resources/images/`; data files with a `jpg` or
/// `jpeg` extension to `resources/resource-images/`, other data files to
/// `resources/data/`.
pub open spec fn resource_folder(name: Seq<char>, filter: ResourceFilter) -> Seq<char> {
    match filter {
        ResourceFilter::Images => "resources/images/"@,
        ResourceFilter::Data => match std_path_extension(name) {
            Some(e) => if e == "jpg"@ || e == "jpeg"@ { "resources/resource-images/"@ } else { "resources/data/"@ },
            None => "resources/data/"@,
        },
    }
}

/// The path of the resource file `name` of the given kind under `root`.
pub fn resource_path(root: &str, name: &str, filter: &ResourceFilter) -> (r: String)
    ensures
        r@ == path_join_spec(path_join_spec(root@, resource_folder(name@, *filter)), name@),
{
    let folder: &str = match filter {
        ResourceFilter::Images => "resources/images/",
        ResourceFilter::Data => match path_extension(name) {
            Some(e) => {
                if crate::text::str_eq(e.as_str(), "jpg") || crate::text::str_eq(e.as_str(), "jpeg") {
                    "resources/resource-images/"
                } else {
                    "resources/data/"
                }
            },
            None => "resources/data/",
        },
    };
    let base = path_join(root, folder);
    path_join(base.as_str(), name)
}

/// The id under which a rendered template is recorded.
pub open spec fn template_id_spec(name: Seq<char>) -> Seq<char> {
    "tera-template:"@ + name
}

/// The id under which a rendered template is recorded.
pub fn template_id(template_name: &str) -> (r: String)
    ensures
        r@ == template_id_spec(template_name@),
{
    let mut s = String::new();
    push_str(&mut s, "tera-template:");
    push_str(&mut s, template_name);
    s
}

/// Where a template is rendered to: its name under the root.
pub fn template_path(root: &str, template_name: &str) -> (r: String)
    ensures
        r@ == path_join_spec(root@, template_name@),
{
    path_join(root, template_name)
}

/// Where a fetched resource file is stored, relative to the root: under
/// `resources/data/` or `resources/images/`.
pub fn relative_resource_path(name: &str, filter: &ResourceFilter) -> (r: String)
    ensures
        r@ == (match *filter {
            ResourceFilter::Data => "resources/data/"@,
            ResourceFilter::Images => "resources/images/"@,
        }) + name@,
{
    let mut s = String::new();
    match filter {
        ResourceFilter::Data => push_str(&mut s, "resources/data/"),
        ResourceFilter::Images => push_str(&mut s, "resources/images/"),
    }
    push_str(&mut s, name);
    s
}

impl Resource {
    /// Where the resource's file lies: its path when that is absolute, else
    /// the path under the gallery root.
    pub fn get_path(&self, root: &str) -> (s: String)
        ensures
            s@ == path_join_spec(root@, self.path@),
    {
        path_join(root, self.path.as_str())
    }

    /// Where the resource's record is stored: its file name with `.binres`
    /// under `resources/meta` of the gallery root. The path must name a file.
    pub fn get_metadata_path(&self, root: &str) -> (s: String)
        requires
            names_file(self.path@),
        ensures
            s@ == path_join_spec(path_join_spec(root@, "resources/meta"@), file_name(self.path@) + ".binres"@),
    {
        let mut name = self.get_filename();
        push_str(&mut name, ".binres");
        let folder = path_join(root, "resources/meta");
        path_join(folder.as_str(), name.as_str())
    }
}

} // verus!
