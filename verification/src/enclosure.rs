//! The enclosure in the system's tree of devices: where its attributes and
//! those of its bays are found, and what the contents found there mean.
//!
//! The library reads no file. It names the path of each attribute, and takes
//! what the caller has read there.

use vstd::prelude::*;
use vstd::string::*;
use crate::err::{io_op, IoFailure, SError, SResult};
use crate::parse::{
    chars_of, decimal_two, parse_number, parsed_number, push_decimal_two, text_of, trim, trimmed,
};
use crate::text::same_text;
use crate::utils::{into_not_found_option_or_panic_io, into_not_found_option_or_panic_s};

verus! {

/// The directory that lists the enclosures.
pub const ENCLOSURE_DIR: &'static str = "/sys/class/enclosure";

/// The path of the directory that lists the enclosures.
pub open spec fn enclosure_dir() -> Seq<char> {
    "/sys/class/enclosure"@
}

/// The path of `files`, one within the other, below `root`.
pub open spec fn joined(root: Seq<char>, files: Seq<Seq<char>>) -> Seq<char>
    decreases files.len(),
{
    if files.len() == 0 {
        root
    } else {
        joined(root, files.drop_last()) + seq!['/'] + files.last()
    }
}

/// What a slice of names holds.
pub open spec fn names(files: Seq<&str>) -> Seq<Seq<char>> {
    Seq::new(files.len(), |i: int| files[i]@)
}

fn join(root: String, files: &[&str]) -> (r: String)
    ensures
        r@ == joined(root@, names(files@)),
{
    let mut path = root;
    let mut i: usize = 0;
    assert(names(files@).take(0) =~= Seq::<Seq<char>>::empty());
    while i < files.len()
        invariant
            i <= files@.len(),
            path@ == joined(root@, names(files@).take(i as int)),
        decreases files@.len() - i,
    {
        proof {
            reveal_strlit("/");
            assert(names(files@).take(i + 1).drop_last() =~= names(files@).take(i as int));
        }
        path.append("/");
        path.append(files[i]);
        i = i + 1;
    }
    proof {
        assert(names(files@).take(files@.len() as int) =~= names(files@));
    }
    path
}

/// The one enclosure of the machine.
#[derive(Debug)]
pub struct Enclosure {
    enc_id: String,
}

/// One bay of the enclosure.
pub struct Slot {
    enc_id: String,
    slot_id: usize,
}

/// The enclosure that the directory of enclosures lists, where it lists
/// exactly one.
pub open spec fn only_enclosure(listing: Result<Vec<String>, IoFailure>, r: SResult<String>) -> bool {
    match listing {
        Err(e) => r matches Err(SError::Io { path, err }) && path@ == enclosure_dir() && err == e,
        Ok(found) => if found@.len() == 0 {
            r == Err::<String, SError>(SError::NoEnclosuresFound)
        } else if found@.len() != 1 {
            r == Err::<String, SError>(SError::MoreThanOneEnclosureFound)
        } else {
            r matches Ok(id) && id@ == found@[0]@
        },
    }
}

impl Enclosure {
    /// The name of the enclosure's directory.
    pub closed spec fn id(&self) -> Seq<char> {
        self.enc_id@
    }

    /// The enclosure that `listing` names: the entries of the directory of
    /// enclosures, or the failure to list them.
    pub fn load_only(listing: Result<Vec<String>, IoFailure>) -> (r: SResult<Self>)
        ensures
            match listing {
                Err(e) => r matches Err(SError::Io { path, err }) && path@ == enclosure_dir()
                    && err == e,
                Ok(found) => if found@.len() == 0 {
                    r matches Err(e) && e == SError::NoEnclosuresFound
                } else if found@.len() != 1 {
                    r matches Err(e) && e == SError::MoreThanOneEnclosureFound
                } else {
                    r matches Ok(enclosure) && enclosure.id() == found@[0]@
                },
            },
    {
        match Self::find_only_enclosure_id(listing) {
            Ok(enc_id) => Ok(Self { enc_id }),
            Err(e) => Err(e),
        }
    }

    fn find_only_enclosure_id(listing: Result<Vec<String>, IoFailure>) -> (r: SResult<String>)
        ensures
            only_enclosure(listing, r),
    {
        let mut enclosures: Vec<String> = match io_op(listing, ENCLOSURE_DIR) {
            Ok(found) => found,
            Err(e) => {
                return Err(e);
            },
        };
        if enclosures.len() == 0 {
            return Err(SError::NoEnclosuresFound);
        }
        if enclosures.len() != 1 {
            return Err(SError::MoreThanOneEnclosureFound);
        }
        match enclosures.pop() {
            Some(enclosure) => Ok(enclosure),
            None => Err(SError::NoEnclosuresFound),
        }
    }

    /// The name of the enclosure's directory.
    pub fn enc_id(&self) -> (r: &str)
        ensures
            r@ == self.id(),
    {
        self.enc_id.as_str()
    }

    /// The path of the enclosure's directory.
    pub open spec fn spec_root(&self) -> Seq<char> {
        enclosure_dir() + seq!['/'] + self.id()
    }

    /// The path of the enclosure's directory.
    pub fn root(&self) -> (r: String)
        ensures
            r@ == self.spec_root(),
    {
        proof {
            reveal_strlit("/");
        }
        let mut path = ENCLOSURE_DIR.to_owned();
        path.append("/");
        path.append(self.enc_id.as_str());
        path
    }

    /// The path of `files`, one within the other, in the enclosure's
    /// directory.
    pub fn files(&self, files: &[&str]) -> (r: String)
        ensures
            r@ == joined(self.spec_root(), names(files@)),
    {
        join(self.root(), files)
    }

    /// The path of `file` in the enclosure's directory.
    pub fn file(&self, file: &str) -> (r: String)
        ensures
            r@ == self.spec_root() + seq!['/'] + file@,
    {
        proof {
            reveal_strlit("/");
        }
        let mut path = self.root();
        path.append("/");
        path.append(file);
        path
    }

    /// The path of the attribute that states the number of bays.
    pub open spec fn components_path(&self) -> Seq<char> {
        self.spec_root() + "/components"@
    }

    /// The number of bays, from what was read at the path of the attribute
    /// that states it.
    pub fn slot_len(&self, read: Result<String, IoFailure>) -> (r: SResult<usize>)
        ensures
            match read {
                Err(e) => r matches Err(SError::Io { path, err }) && path@
                    == self.components_path() && err == e,
                Ok(content) => match parsed_number(trimmed(content@)) {
                    Some(n) => if n <= usize::MAX {
                        r == Ok::<usize, SError>(n as usize)
                    } else {
                        r matches Err(SError::ComponentsNaN { path }) && path@
                            == self.components_path()
                    },
                    None => r matches Err(SError::ComponentsNaN { path }) && path@
                        == self.components_path(),
                },
            },
    {
        proof {
            reveal_strlit("/components");
            reveal_strlit("components");
            assert("/components"@ =~= seq!['/'] + "components"@);
        }
        let components_path = self.file("components");
        assert(components_path@ =~= self.components_path());
        let slots: String = match io_op(read, components_path.as_str()) {
            Ok(content) => content,
            Err(e) => {
                return Err(e);
            },
        };
        let number = chars_of(trim(slots.as_str()).as_str());
        match parse_number(number.as_slice()) {
            Some(n) => Ok(n),
            None => Err(SError::ComponentsNaN { path: components_path }),
        }
    }

    /// Bay `slot_id` of the enclosure.
    pub fn slot(&self, slot_id: usize) -> (r: Slot)
        ensures
            r.enclosure() == self.id(),
            r.number() == slot_id,
    {
        Slot { enc_id: self.enc_id.clone(), slot_id }
    }

    /// The path of the attribute `name` of the enclosure's device.
    pub open spec fn device_path(&self, name: Seq<char>) -> Seq<char> {
        self.spec_root() + "/device/"@ + name
    }

    /// The vendor of the enclosure, from what was read at the path of that
    /// attribute.
    pub fn device_vendor(&self, read: Result<String, IoFailure>) -> (r: SResult<String>)
        ensures
            attribute(read, self.device_path("vendor"@), r),
    {
        proof {
            lemma_device_attribute(self.spec_root(), "vendor"@);
        }
        let path = self.files(&["device", "vendor"]);
        assert(names(seq!["device", "vendor"]) =~= seq!["device"@, "vendor"@]);
        read_attribute(read, path.as_str())
    }

    /// The model of the enclosure, from what was read at the path of that
    /// attribute.
    pub fn device_model(&self, read: Result<String, IoFailure>) -> (r: SResult<String>)
        ensures
            attribute(read, self.device_path("model"@), r),
    {
        proof {
            lemma_device_attribute(self.spec_root(), "model"@);
        }
        let path = self.files(&["device", "model"]);
        assert(names(seq!["device", "model"]) =~= seq!["device"@, "model"@]);
        read_attribute(read, path.as_str())
    }
}

/// What an attribute says, given what was `read` at `path`: the content
/// without the white space around it, or the failure with the path.
pub open spec fn attribute(read: Result<String, IoFailure>, path: Seq<char>, r: SResult<String>) -> bool {
    match read {
        Ok(content) => r matches Ok(text) && text@ == trimmed(content@),
        Err(e) => r matches Err(SError::Io { path: p, err }) && p@ == path && err == e,
    }
}

fn read_attribute(read: Result<String, IoFailure>, path: &str) -> (r: SResult<String>)
    ensures
        attribute(read, path@, r),
{
    match io_op(read, path) {
        Ok(content) => Ok(trim(content.as_str())),
        Err(e) => Err(e),
    }
}

/// The path of a file in a directory.
pub proof fn lemma_joined_one(root: Seq<char>, file: Seq<char>)
    ensures
        joined(root, seq![file]) == root + seq!['/'] + file,
{
    assert(seq![file].drop_last() =~= Seq::<Seq<char>>::empty());
    assert(joined(root, Seq::<Seq<char>>::empty()) == root);
}

/// The attribute `name` of a device stands in the directory `device`.
pub proof fn lemma_device_attribute(root: Seq<char>, name: Seq<char>)
    ensures
        joined(root, seq!["device"@, name]) == root + "/device/"@ + name,
{
    reveal_strlit("/device/");
    reveal_strlit("device");
    let files = seq!["device"@, name];
    assert(files.drop_last() =~= seq!["device"@]);
    lemma_joined_one(root, "device"@);
    assert("/device/"@ =~= seq!['/'] + "device"@ + seq!['/']);
    assert(joined(root, files) =~= root + "/device/"@ + name);
}

/// The last part of a path: what stands behind its last `/`.
pub open spec fn file_name(path: Seq<char>) -> Seq<char>
    decreases path.len(),
{
    if path.len() == 0 || path.last() == '/' {
        Seq::empty()
    } else {
        file_name(path.drop_last()).push(path.last())
    }
}

/// The last part of the path of an entry of a directory is the entry's name.
pub proof fn lemma_file_name(dir: Seq<char>, name: Seq<char>)
    requires
        !name.contains('/'),
    ensures
        file_name(dir + seq!['/'] + name) == name,
    decreases name.len(),
{
    let path = dir + seq!['/'] + name;
    if name.len() == 0 {
        assert(path.last() == '/');
    } else {
        assert(name.last() != '/') by {
            assert(name[name.len() - 1] == name.last());
        }
        assert(path.last() == name.last());
        assert(path.drop_last() =~= dir + seq!['/'] + name.drop_last());
        assert(!name.drop_last().contains('/')) by {
            if name.drop_last().contains('/') {
                let j = name.drop_last().index_of('/');
                assert(name[j] == '/');
            }
        }
        lemma_file_name(dir, name.drop_last());
        assert(name =~= name.drop_last().push(name.last()));
    }
}

fn last_part(path: &str) -> (r: String)
    ensures
        r@ == file_name(path@),
{
    let v = chars_of(path);
    let mut from: usize = v.len();
    assert(v@.subrange(from as int, v@.len() as int) =~= Seq::<char>::empty());
    assert(v@.take(from as int) =~= v@);
    assert(file_name(v@) + Seq::<char>::empty() =~= file_name(v@));
    while from > 0 && v[from - 1] != '/'
        invariant
            from <= v@.len(),
            file_name(v@) == file_name(v@.take(from as int)) + v@.subrange(
                from as int,
                v@.len() as int,
            ),
        decreases from,
    {
        proof {
            assert(v@.take(from as int).drop_last() =~= v@.take(from - 1));
            assert(file_name(v@.take(from - 1)).push(v@[from - 1]) + v@.subrange(
                from as int,
                v@.len() as int,
            ) =~= file_name(v@.take(from - 1)) + v@.subrange(from - 1, v@.len() as int));
        }
        from = from - 1;
    }
    proof {
        assert(file_name(v@.take(from as int)) =~= Seq::<char>::empty());
        assert(v@.take(v@.len() as int) =~= v@);
    }
    text_of(v.as_slice(), from, v.len())
}

impl Slot {
    /// The name of the directory of the bay's enclosure.
    pub closed spec fn enclosure(&self) -> Seq<char> {
        self.enc_id@
    }

    /// The number of the bay.
    pub closed spec fn number(&self) -> usize {
        self.slot_id
    }

    /// The path of the bay's directory: `Slot` and the number of the bay in
    /// at least two digits, in the directory of the enclosure.
    pub open spec fn spec_root(&self) -> Seq<char> {
        enclosure_dir() + seq!['/'] + self.enclosure() + "/Slot"@ + decimal_two(
            self.number() as nat,
        )
    }

    /// The path of the bay's directory.
    pub fn root(&self) -> (r: String)
        ensures
            r@ == self.spec_root(),
    {
        proof {
            reveal_strlit("/");
        }
        let mut path = ENCLOSURE_DIR.to_owned();
        path.append("/");
        path.append(self.enc_id.as_str());
        path.append("/Slot");
        push_decimal_two(&mut path, self.slot_id);
        path
    }

    /// The path of `files`, one within the other, in the bay's directory.
    pub fn files(&self, files: &[&str]) -> (r: String)
        ensures
            r@ == joined(self.spec_root(), names(files@)),
    {
        join(self.root(), files)
    }

    /// The path of `file` in the bay's directory.
    pub fn file(&self, file: &str) -> (r: String)
        ensures
            r@ == self.spec_root() + seq!['/'] + file@,
    {
        proof {
            reveal_strlit("/");
        }
        let mut path = self.root();
        path.append("/");
        path.append(file);
        path
    }

    /// The path of the attribute `name` of the device in the bay.
    pub open spec fn device_path(&self, name: Seq<char>) -> Seq<char> {
        self.spec_root() + "/device/"@ + name
    }

    /// The path of the block device in the bay, given the `listing` of the
    /// directory `device/block` of the bay: its one entry, or nothing where
    /// the directory does not exist.
    pub fn block_path(&self, listing: Result<Vec<String>, IoFailure>) -> (r: Option<String>)
        requires
            listing is Ok ==> listing->Ok_0@.len() == 1,
            listing is Err ==> listing->Err_0.not_found,
        ensures
            match listing {
                Ok(found) => r matches Some(path) && path@ == self.device_path("block"@) + seq![
                    '/',
                ] + found@[0]@,
                Err(_) => r is None,
            },
    {
        proof {
            lemma_device_attribute(self.spec_root(), "block"@);
        }
        let block_root_dir = self.files(&["device", "block"]);
        assert(names(seq!["device", "block"]) =~= seq!["device"@, "block"@]);
        let found = single_file(block_root_dir.as_str(), listing);
        into_not_found_option_or_panic_s(block_root_dir.as_str(), found)
    }

    /// The name of the block device in the bay, given the `listing` of the
    /// directory `device/block` of the bay.
    pub fn block_name(&self, listing: Result<Vec<String>, IoFailure>) -> (r: Option<String>)
        requires
            listing is Ok ==> listing->Ok_0@.len() == 1,
            listing is Err ==> listing->Err_0.not_found,
        ensures
            match listing {
                Ok(found) => r matches Some(name) && name@ == file_name(
                    self.device_path("block"@) + seq!['/'] + found@[0]@,
                ) && (!found@[0]@.contains('/') ==> name@ == found@[0]@),
                Err(_) => r is None,
            },
    {
        proof {
            if listing is Ok && !listing->Ok_0@[0]@.contains('/') {
                lemma_file_name(self.device_path("block"@), listing->Ok_0@[0]@);
            }
        }
        match self.block_path(listing) {
            Some(block_device_sys) => Some(last_part(block_device_sys.as_str())),
            None => None,
        }
    }

    /// The identifier of the device in the bay, from what was read at the
    /// path of that attribute; nothing where there is no such attribute.
    pub fn device_wwid(&self, read: Result<String, IoFailure>) -> (r: Option<String>)
        requires
            read is Err ==> read->Err_0.not_found,
        ensures
            match read {
                Ok(content) => r matches Some(text) && text@ == trimmed(content@),
                Err(_) => r is None,
            },
    {
        let path = self.files(&["device", "wwid"]);
        let trimmed = match read {
            Ok(content) => Ok(trim(content.as_str())),
            Err(e) => Err(e),
        };
        into_not_found_option_or_panic_io(path.as_str(), trimmed)
    }

    /// The vendor of the device in the bay, from what was read at the path
    /// of that attribute.
    pub fn device_vendor(&self, read: Result<String, IoFailure>) -> (r: SResult<String>)
        ensures
            attribute(read, self.device_path("vendor"@), r),
    {
        proof {
            lemma_device_attribute(self.spec_root(), "vendor"@);
        }
        let path = self.files(&["device", "vendor"]);
        assert(names(seq!["device", "vendor"]) =~= seq!["device"@, "vendor"@]);
        read_attribute(read, path.as_str())
    }

    /// The model of the device in the bay, from what was read at the path of
    /// that attribute.
    pub fn device_model(&self, read: Result<String, IoFailure>) -> (r: SResult<String>)
        ensures
            attribute(read, self.device_path("model"@), r),
    {
        proof {
            lemma_device_attribute(self.spec_root(), "model"@);
        }
        let path = self.files(&["device", "model"]);
        assert(names(seq!["device", "model"]) =~= seq!["device"@, "model"@]);
        read_attribute(read, path.as_str())
    }

    /// Whether the bay's indicator light is on, from what was read at the
    /// path of the attribute `locate`: it is on where the attribute says `1`.
    pub fn is_locating(&self, read: Result<String, IoFailure>) -> (r: bool)
        requires
            read is Err ==> read->Err_0.not_found,
        ensures
            r == (read matches Ok(content) && trimmed(content@) == "1"@),
    {
        let path = self.file("locate");
        let trimmed = match read {
            Ok(content) => Ok(trim(content.as_str())),
            Err(e) => Err(e),
        };
        match into_not_found_option_or_panic_io(path.as_str(), trimmed) {
            Some(content) => same_text(content.as_str(), "1"),
            None => false,
        }
    }
}

/// The path of the one entry of the directory `dir`, given its `listing`.
fn single_file(dir: &str, listing: Result<Vec<String>, IoFailure>) -> (r: SResult<String>)
    requires
        listing is Ok ==> listing->Ok_0@.len() == 1,
    ensures
        match listing {
            Ok(found) => r matches Ok(path) && path@ == dir@ + seq!['/'] + found@[0]@,
            Err(e) => r matches Err(SError::Io { path, err }) && path@ == dir@ && err == e,
        },
{
    proof {
        reveal_strlit("/");
    }
    let files: Vec<String> = match io_op(listing, dir) {
        Ok(found) => found,
        Err(e) => {
            return Err(e);
        },
    };
    let mut path = dir.to_owned();
    path.append("/");
    path.append(files[0].as_str());
    Ok(path)
}

} // verus!
