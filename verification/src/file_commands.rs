//! The decisions of the file commands of a drive: which permission each
//! operation needs and the answer a refusal gives, the operations that may
//! not touch the drive root, the content a read returns (base64 with its
//! MIME type) and the decoding of uploaded content.
use vstd::prelude::*;
use crate::access::{AccessControlList, Permission};
use crate::conflict::{extension, path_extension};
use crate::error::AppError;
use crate::primitives::{
    base64_standard, base64_standard_decode, base64_standard_decoded, base64_standard_encode,
    char_is_alphanumeric, lowercase_chars, opt_chars, unicode_alphanumeric, unicode_lowercase,
};
use crate::text::{chars_eq, chars_of, starts_with, string_from_chars};
use crate::validation::{
    components, components_prefix, is_prefix_of, join_components, path_components, render,
};

verus! {

/// The content of a file as a read returns it.
#[derive(Clone, Debug)]
pub struct FileContent {
    /// Base64 (standard, padded) encoding of the content.
    pub content: String,
    /// Size in bytes.
    pub size: u64,
    /// MIME type, where the path has an extension.
    pub mime_type: Option<String>,
}

/// What a file command does to a path of a drive.
#[derive(Clone, Copy, Debug, PartialEq, Eq, Structural)]
pub enum FileOperation {
    /// List a directory.
    List,
    /// Read a file.
    Read,
    /// Write a file.
    Write,
    /// Delete a file or directory.
    Delete,
    /// Move a file or directory away from this path.
    RenameFrom,
    /// Move a file or directory to this path.
    RenameTo,
}

impl FileOperation {
    /// The permission the operation needs on its path.
    pub open spec fn spec_required(self) -> Permission {
        match self {
            FileOperation::List | FileOperation::Read => Permission::Read,
            _ => Permission::Write,
        }
    }

    /// The reason given when the operation is refused.
    pub open spec fn spec_denial(self) -> Seq<char> {
        match self {
            FileOperation::List => "insufficient permission to list files"@,
            FileOperation::Read => "insufficient permission to read file"@,
            FileOperation::Write => "insufficient permission to write file"@,
            FileOperation::Delete => "insufficient permission to delete path"@,
            FileOperation::RenameFrom => "insufficient permission to rename from source path"@,
            FileOperation::RenameTo => "insufficient permission to rename to destination path"@,
        }
    }

    /// The answer when the operation is aimed at the drive root itself, for
    /// the operations that may not touch it.
    pub open spec fn spec_root_refusal(self) -> Option<Seq<char>> {
        match self {
            FileOperation::Write => Some("Cannot write to drive root"@),
            FileOperation::Delete => Some("Cannot delete drive root"@),
            FileOperation::RenameFrom => Some("Cannot rename drive root"@),
            _ => None,
        }
    }

    /// The permission the operation needs on its path.
    pub fn required_permission(&self) -> (p: Permission)
        ensures
            p == self.spec_required(),
    {
        match self {
            FileOperation::List | FileOperation::Read => Permission::Read,
            _ => Permission::Write,
        }
    }

    /// The reason given when the operation is refused.
    pub fn denial_reason(&self) -> (s: &'static str)
        ensures
            s@ == self.spec_denial(),
    {
        match self {
            FileOperation::List => "insufficient permission to list files",
            FileOperation::Read => "insufficient permission to read file",
            FileOperation::Write => "insufficient permission to write file",
            FileOperation::Delete => "insufficient permission to delete path",
            FileOperation::RenameFrom => "insufficient permission to rename from source path",
            FileOperation::RenameTo => "insufficient permission to rename to destination path",
        }
    }

    /// The answer when the operation is aimed at the drive root itself.
    pub fn root_refusal(&self) -> (s: Option<&'static str>)
        ensures
            match (s, self.spec_root_refusal()) {
                (Some(a), Some(b)) => a@ == b,
                (None, None) => true,
                _ => false,
            },
    {
        match self {
            FileOperation::Write => Some("Cannot write to drive root"),
            FileOperation::Delete => Some("Cannot delete drive root"),
            FileOperation::RenameFrom => Some("Cannot rename drive root"),
            _ => None,
        }
    }
}

/// Check that a user may do an operation on a path of a drive at `now`:
/// refused with the operation's reason exactly when the drive's access list
/// does not give the user the permission the operation needs there.
pub fn authorize_file_operation(
    acl: &AccessControlList,
    caller: &str,
    path: &str,
    op: FileOperation,
    now: i64,
) -> (r: Result<(), AppError>)
    requires
        acl.wf(),
    ensures
        r is Ok <==> acl.permits_at(caller@, path@, op.spec_required(), now),
        r matches Err(e) ==> (e matches AppError::AccessDenied { reason } && reason@
            == op.spec_denial()),
{
    if acl.check_permission_at(caller, path, op.required_permission(), now) {
        Ok(())
    } else {
        Err(AppError::AccessDenied { reason: String::from_str(op.denial_reason()) })
    }
}

/// Check that a user may move a path to another: the source is checked
/// first, then the destination, each needing write permission.
pub fn authorize_rename(acl: &AccessControlList, caller: &str, old_path: &str, new_path: &str, now: i64) -> (r:
    Result<(), AppError>)
    requires
        acl.wf(),
    ensures
        !acl.permits_at(caller@, old_path@, Permission::Write, now) ==> (r matches Err(
            AppError::AccessDenied { reason },
        ) && reason@ == FileOperation::RenameFrom.spec_denial()),
        acl.permits_at(caller@, old_path@, Permission::Write, now) && !acl.permits_at(
            caller@,
            new_path@,
            Permission::Write,
            now,
        ) ==> (r matches Err(AppError::AccessDenied { reason }) && reason@
            == FileOperation::RenameTo.spec_denial()),
        r is Ok <==> acl.permits_at(caller@, old_path@, Permission::Write, now) && acl.permits_at(
            caller@,
            new_path@,
            Permission::Write,
            now,
        ),
{
    match authorize_file_operation(acl, caller, old_path, FileOperation::RenameFrom, now) {
        Ok(()) => {},
        Err(e) => return Err(e),
    }
    authorize_file_operation(acl, caller, new_path, FileOperation::RenameTo, now)
}

/// Refuse an operation aimed at the drive root itself, for the operations
/// that may not touch it; paths are compared by their components.
pub fn check_not_root(safe_path: &str, root: &str, op: FileOperation) -> (r: Result<(), String>)
    ensures
        r is Err <==> components(safe_path@) == components(root@) && op.spec_root_refusal() is Some,
        r matches Err(m) ==> Some(m@) == op.spec_root_refusal(),
{
    match op.root_refusal() {
        None => Ok(()),
        Some(msg) => {
            let a = path_components(chars_of(safe_path).as_slice());
            let b = path_components(chars_of(root).as_slice());
            let ghost av = a@.map_values(|v: Vec<char>| v@);
            let ghost bv = b@.map_values(|v: Vec<char>| v@);
            assert(av == components(safe_path@));
            assert(bv == components(root@));
            if a.len() != b.len() {
                assert(av.len() != bv.len());
                return Ok(());
            }
            let mut i: usize = 0;
            while i < a.len()
                invariant
                    a@.len() == b@.len(),
                    av == a@.map_values(|v: Vec<char>| v@),
                    bv == b@.map_values(|v: Vec<char>| v@),
                    av == components(safe_path@),
                    bv == components(root@),
                    i <= a@.len(),
                    forall|j: int| 0 <= j < i ==> av[j] == bv[j],
                decreases a@.len() - i,
            {
                if !chars_eq(a[i].as_slice(), b[i].as_slice()) {
                    assert(av[i as int] != bv[i as int]);
                    return Ok(());
                }
                i = i + 1;
            }
            assert(av =~= bv);
            Err(String::from_str(msg))
        },
    }
}

/// The MIME type of a lower-cased extension.
pub open spec fn mime_of(ext: Seq<char>) -> Seq<char> {
    if ext == "txt"@ || ext == "md"@ || ext == "rs"@ || ext == "js"@ || ext == "ts"@ || ext
        == "py"@ || ext == "json"@ || ext == "toml"@ || ext == "yaml"@ || ext == "yml"@ {
        "text/plain"@
    } else if ext == "html"@ || ext == "htm"@ {
        "text/html"@
    } else if ext == "css"@ {
        "text/css"@
    } else if ext == "png"@ {
        "image/png"@
    } else if ext == "jpg"@ || ext == "jpeg"@ {
        "image/jpeg"@
    } else if ext == "gif"@ {
        "image/gif"@
    } else if ext == "svg"@ {
        "image/svg+xml"@
    } else if ext == "pdf"@ {
        "application/pdf"@
    } else if ext == "zip"@ {
        "application/zip"@
    } else {
        "application/octet-stream"@
    }
}

/// The MIME type of a path: that of its extension, lower-cased; none
/// without an extension.
pub open spec fn mime_for_path(path: Seq<char>) -> Option<Seq<char>> {
    match extension(path) {
        Some(e) => Some(mime_of(unicode_lowercase(e))),
        None => None,
    }
}

fn is_word(e: &[char], w: &str) -> (r: bool)
    ensures
        r == (e@ == w@),
{
    let wv = chars_of(w);
    chars_eq(e, wv.as_slice())
}

/// The MIME type of a lower-cased extension (see `mime_of`).
pub fn mime_type_of(ext: &[char]) -> (s: &'static str)
    ensures
        s@ == mime_of(ext@),
{
    if is_word(ext, "txt") || is_word(ext, "md") || is_word(ext, "rs") || is_word(ext, "js")
        || is_word(ext, "ts") || is_word(ext, "py") || is_word(ext, "json") || is_word(
        ext,
        "toml",
    ) || is_word(ext, "yaml") || is_word(ext, "yml") {
        "text/plain"
    } else if is_word(ext, "html") || is_word(ext, "htm") {
        "text/html"
    } else if is_word(ext, "css") {
        "text/css"
    } else if is_word(ext, "png") {
        "image/png"
    } else if is_word(ext, "jpg") || is_word(ext, "jpeg") {
        "image/jpeg"
    } else if is_word(ext, "gif") {
        "image/gif"
    } else if is_word(ext, "svg") {
        "image/svg+xml"
    } else if is_word(ext, "pdf") {
        "application/pdf"
    } else if is_word(ext, "zip") {
        "application/zip"
    } else {
        "application/octet-stream"
    }
}

/// The MIME type of a path (see `mime_for_path`).
pub fn mime_type_for(path: &str) -> (r: Option<String>)
    ensures
        opt_chars(r) == mime_for_path(path@),
{
    match path_extension(path) {
        Some(e) => {
            let text = string_from_chars(e.as_slice());
            let lower = lowercase_chars(text.as_str());
            Some(String::from_str(mime_type_of(lower.as_slice())))
        },
        None => None,
    }
}

/// The answer to a read of a file: its content in base64, its size and the
/// MIME type of its path.
pub fn file_content(content: &[u8], path: &str) -> (r: FileContent)
    ensures
        r.content@ == base64_standard(content@),
        r.size == content@.len(),
        opt_chars(r.mime_type) == mime_for_path(path@),
{
    FileContent {
        content: base64_standard_encode(content),
        size: content.len() as u64,
        mime_type: mime_type_for(path),
    }
}

/// The prefix of the answer to content that is not base64.
pub open spec fn invalid_content_prefix() -> Seq<char> {
    "Invalid base64 content: "@
}

/// Decode uploaded content (standard base64); content that is not base64 is
/// refused with a message that starts with `Invalid base64 content: ` and
/// goes on with the decoder's own words.
pub fn decode_upload(content: &str) -> (r: Result<Vec<u8>, String>)
    ensures
        r is Ok <==> base64_standard_decoded(content@) is Some,
        r matches Ok(v) ==> Some(v@) == base64_standard_decoded(content@),
        r matches Err(m) ==> starts_with(m@, invalid_content_prefix()),
{
    match base64_standard_decode(content) {
        Ok(v) => Ok(v),
        Err(detail) => {
            let mut m = String::from_str("Invalid base64 content: ");
            let ghost p = m@;
            m.append(detail.as_str());
            assert(m@.subrange(0, p.len() as int) =~= p);
            Err(m)
        },
    }
}

/// The path of a validated path relative to the drive root: its components
/// after those of the root, joined by `/`; `None` where it does not lie
/// under the root.
pub fn relative_path(validated: &str, root: &str) -> (r: Option<String>)
    ensures
        match r {
            Some(p) => is_prefix_of(components(root@), components(validated@)) && p@
                == join_components(
                components(validated@).subrange(
                    components(root@).len() as int,
                    components(validated@).len() as int,
                ),
            ),
            None => !is_prefix_of(components(root@), components(validated@)),
        },
{
    let v = path_components(chars_of(validated).as_slice());
    let b = path_components(chars_of(root).as_slice());
    let ghost vv = v@.map_values(|x: Vec<char>| x@);
    let ghost bv = b@.map_values(|x: Vec<char>| x@);
    if !components_prefix(&b, &v) {
        return None;
    }
    let mut rest: Vec<Vec<char>> = Vec::new();
    let mut i: usize = b.len();
    while i < v.len()
        invariant
            vv == v@.map_values(|x: Vec<char>| x@),
            b@.len() <= i <= v@.len(),
            rest@.map_values(|x: Vec<char>| x@) == vv.subrange(b@.len() as int, i as int),
        decreases v@.len() - i,
    {
        let piece = crate::text::slice_chars(v[i].as_slice(), 0, v[i].len());
        assert(piece@ =~= v@[i as int]@);
        let ghost r0 = rest@;
        let ghost pv = piece@;
        rest.push(piece);
        assert(rest@.map_values(|x: Vec<char>| x@) =~= r0.map_values(|x: Vec<char>| x@).push(pv));
        assert(vv.subrange(b@.len() as int, i + 1) =~= vv.subrange(b@.len() as int, i as int).push(
            vv[i as int],
        ));
        i = i + 1;
        assert(rest@.map_values(|x: Vec<char>| x@) =~= vv.subrange(b@.len() as int, i as int));
    }
    Some(render(false, &rest))
}


/// A character an imported file's name keeps: alphanumeric, `.`, `-`, `_`
/// or space.
pub open spec fn import_name_char(c: char) -> bool {
    unicode_alphanumeric(c) || c == '.' || c == '-' || c == '_' || c == ' '
}

/// The characters of a name that an import keeps, in order.
pub open spec fn kept_name_chars(s: Seq<char>) -> Seq<char>
    decreases s.len(),
{
    if s.len() == 0 {
        Seq::empty()
    } else if import_name_char(s.last()) {
        kept_name_chars(s.drop_last()).push(s.last())
    } else {
        kept_name_chars(s.drop_last())
    }
}

/// The name an imported file gets: the requested name, else the source's
/// file name, else `imported_file`, with only the kept characters.
pub open spec fn import_name(dest_name: Option<Seq<char>>, source_name: Option<Seq<char>>) -> Seq<
    char,
> {
    kept_name_chars(
        match dest_name {
            Some(n) => n,
            None => match source_name {
                Some(s) => s,
                None => "imported_file"@,
            },
        },
    )
}

/// The plain folder names of a list of components (`..` left out).
pub open spec fn plain_components(c: Seq<Seq<char>>) -> Seq<Seq<char>>
    decreases c.len(),
{
    if c.len() == 0 {
        Seq::empty()
    } else if c.last() == seq!['.', '.'] {
        plain_components(c.drop_last())
    } else {
        plain_components(c.drop_last()).push(c.last())
    }
}

/// The folders an import places its file under: the plain names of the
/// requested folder (none without one).
pub open spec fn import_folders(dest_folder: Option<Seq<char>>) -> Seq<Seq<char>> {
    match dest_folder {
        Some(f) => plain_components(components(f)),
        None => Seq::empty(),
    }
}

/// Where an imported file lands, relative to the drive root: under the
/// plain names of the requested folder, with the import's name (see
/// `import_name`); an empty name is refused.
pub fn import_destination(
    dest_name: Option<String>,
    source_name: Option<String>,
    dest_folder: Option<String>,
) -> (r: Result<String, String>)
    ensures
        import_name(opt_chars(dest_name), opt_chars(source_name)).len() == 0 ==> (r matches Err(m)
            && m@ == "Invalid destination filename"@),
        import_name(opt_chars(dest_name), opt_chars(source_name)).len() > 0 ==> (r matches Ok(p)
            && p@ == join_components(
            import_folders(opt_chars(dest_folder)).push(
                import_name(opt_chars(dest_name), opt_chars(source_name)),
            ),
        )),
{
    let name = match dest_name {
        Some(n) => n,
        None => match source_name {
            Some(s) => s,
            None => String::from_str("imported_file"),
        },
    };
    proof {
        reveal_strlit("imported_file");
    }
    let chars = chars_of(name.as_str());
    let mut kept: Vec<char> = Vec::new();
    let mut i: usize = 0;
    while i < chars.len()
        invariant
            i <= chars@.len(),
            kept@ == kept_name_chars(chars@.subrange(0, i as int)),
        decreases chars@.len() - i,
    {
        let c = chars[i];
        let keep = char_is_alphanumeric(c) || c == '.' || c == '-' || c == '_' || c == ' ';
        assert(chars@.subrange(0, i + 1).drop_last() =~= chars@.subrange(0, i as int));
        if keep {
            kept.push(c);
        }
        i = i + 1;
    }
    assert(chars@.subrange(0, chars@.len() as int) =~= chars@);
    if kept.len() == 0 {
        return Err(String::from_str("Invalid destination filename"));
    }
    let mut parts: Vec<Vec<char>> = Vec::new();
    let ghost fv: Seq<Seq<char>> = Seq::empty();
    match dest_folder {
        Some(f) => {
            let c = path_components(chars_of(f.as_str()).as_slice());
            let ghost cv = c@.map_values(|x: Vec<char>| x@);
            let mut j: usize = 0;
            while j < c.len()
                invariant
                    cv == c@.map_values(|x: Vec<char>| x@),
                    j <= c@.len(),
                    parts@.map_values(|x: Vec<char>| x@) == plain_components(cv.subrange(0, j as int)),
                decreases c@.len() - j,
            {
                assert(cv.subrange(0, j + 1).drop_last() =~= cv.subrange(0, j as int));
                let piece = crate::text::slice_chars(c[j].as_slice(), 0, c[j].len());
                assert(piece@ =~= cv[j as int]);
                let dots = piece.len() == 2 && piece[0] == '.' && piece[1] == '.';
                assert(dots == (cv[j as int] == seq!['.', '.'])) by {
                    if piece@.len() == 2 && piece@[0] == '.' && piece@[1] == '.' {
                        assert(piece@ =~= seq!['.', '.']);
                    }
                }
                if !dots {
                    let ghost p0 = parts@;
                    let ghost pv = piece@;
                    parts.push(piece);
                    assert(parts@.map_values(|x: Vec<char>| x@) =~= p0.map_values(|x: Vec<char>| x@).push(pv));
                }
                j = j + 1;
            }
            assert(cv.subrange(0, cv.len() as int) =~= cv);
        },
        None => {},
    }
    let ghost p0 = parts@;
    let ghost kv = kept@;
    parts.push(kept);
    assert(parts@.map_values(|x: Vec<char>| x@) =~= p0.map_values(|x: Vec<char>| x@).push(kv));
    Ok(render(false, &parts))
}

} // verus!
