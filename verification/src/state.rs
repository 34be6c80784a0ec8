//! The signing keys that the shop holds: one for each category.

use crate::catalog::Catalog;
use crate::codec::{load_signing_key, Error};
use crate::issuer::{private_key_path, KeyRole};
use crate::keys::SigningKey;
use crate::text::{join2, same};
use vstd::prelude::*;
use vstd::string::*;

verus! {

/// A key file that the shop needs.
#[derive(Debug)]
pub struct KeyFile {
    pub category: String,
    pub path: String,
}

/// Whether some key files are those of some categories, in order: the web key
/// of each.
pub open spec fn are_key_files(
    files: Seq<KeyFile>,
    keys_dir: Seq<char>,
    categories: Seq<Seq<char>>,
) -> bool {
    &&& files.len() == categories.len()
    &&& forall|i: int|
        0 <= i < files.len() ==> (#[trigger] files[i]).category@ == categories[i] && files[i].path@
            == crate::issuer::private_path(keys_dir, categories[i], KeyRole::Web)
}

/// The key files that a catalog needs: the web key of each category, in the
/// order of the categories' identifiers.
pub fn needed_keys(keys_dir: &str, catalog: &Catalog) -> (files: Vec<KeyFile>)
    ensures
        exists|ids: Seq<Seq<char>>| #[trigger]
            are_key_files(files@, keys_dir@, ids) && crate::text::ascending(ids) && forall|
                id: Seq<char>,
            | #[trigger] ids.contains(id) <==> crate::catalog::has_category_id(*catalog, id),
{
    let ids = catalog.category_ids();
    let ghost all = crate::text::texts(ids@);
    let mut files: Vec<KeyFile> = Vec::new();
    for i in 0..ids.len()
        invariant
            all == crate::text::texts(ids@),
            are_key_files(files@, keys_dir@, all.take(i as int)),
    {
        let path = private_key_path(keys_dir, &ids[i], KeyRole::Web);
        files.push(KeyFile { category: ids[i].clone(), path });
        assert(all[i as int] == ids@[i as int]@);
        assert(all.take(i + 1) =~= all.take(i as int).push(all[i as int]));
    }
    assert(all.take(all.len() as int) =~= all);
    files
}

/// Why the shop has no signing key for a category.
#[derive(Debug)]
pub enum KeyProblem {
    /// The file was not read, for this reason.
    Unreadable { path: String, reason: String },
    /// The file does not have the length of a key.
    WrongLength { path: String },
}

/// The mathematical content of a [`KeyProblem`].
pub enum KeyProblemView {
    Unreadable { path: Seq<char>, reason: Seq<char> },
    WrongLength { path: Seq<char> },
}

impl View for KeyProblem {
    type V = KeyProblemView;

    open spec fn view(&self) -> KeyProblemView {
        match self {
            KeyProblem::Unreadable { path, reason } => KeyProblemView::Unreadable {
                path: path@,
                reason: reason@,
            },
            KeyProblem::WrongLength { path } => KeyProblemView::WrongLength { path: path@ },
        }
    }
}

impl KeyProblem {
    /// The problem in words.
    pub fn to_string(&self) -> (r: String)
        ensures
            r@ == match self@ {
                KeyProblemView::Unreadable { path, reason } => "read signing key "@ + path,
                KeyProblemView::WrongLength { path } => path + " is not 32 bytes"@,
            },
    {
        match self {
            KeyProblem::Unreadable { path, reason: _ } => join2("read signing key ", path),
            KeyProblem::WrongLength { path } => join2(path, " is not 32 bytes"),
        }
    }
}

struct CategoryKey {
    category: String,
    key: SigningKey,
}

/// The signing keys of the categories.
pub struct SigningKeys {
    keys: Vec<CategoryKey>,
}

spec fn key_for(keys: Seq<CategoryKey>, category: Seq<char>) -> Option<Seq<u8>>
    decreases keys.len(),
{
    if keys.len() == 0 {
        None
    } else if keys.last().category@ == category {
        Some(keys.last().key@)
    } else {
        key_for(keys.drop_last(), category)
    }
}

/// What was read from a key file: the bytes of a key, or what is wrong.
pub open spec fn key_read(path: Seq<char>, read: Result<Vec<u8>, String>) -> Result<
    Seq<u8>,
    KeyProblemView,
> {
    match read {
        Err(reason) => Err(KeyProblemView::Unreadable { path, reason: reason@ }),
        Ok(bytes) => if bytes@.len() == 32 {
            Ok(bytes@)
        } else {
            Err(KeyProblemView::WrongLength { path })
        },
    }
}

impl SigningKeys {
    /// The raw key of a category.
    pub closed spec fn key_of(&self, category: Seq<char>) -> Option<Seq<u8>> {
        key_for(self.keys@, category)
    }

    /// No keys.
    pub fn new() -> (r: SigningKeys)
        ensures
            forall|c: Seq<char>| #[trigger] r.key_of(c) is None,
    {
        SigningKeys { keys: Vec::new() }
    }

    /// Takes a key in for a category, in place of any that it had.
    pub fn insert(&mut self, category: String, key: SigningKey)
        ensures
            final(self).key_of(category@) == Some(key@),
            forall|c: Seq<char>|
                c != category@ ==> #[trigger] final(self).key_of(c) == old(self).key_of(c),
    {
        let ghost before = self.keys@;
        self.keys.push(CategoryKey { category, key });
        assert(self.keys@.drop_last() =~= before);
    }

    /// The key of a category.
    pub fn get(&self, category: &str) -> (r: Option<&SigningKey>)
        ensures
            match r {
                Some(k) => self.key_of(category@) == Some(k@),
                None => self.key_of(category@) is None,
            },
    {
        let ghost all = self.keys@;
        let mut n: usize = self.keys.len();
        assert(all.take(all.len() as int) =~= all);
        while n > 0
            invariant
                all == self.keys@,
                n <= all.len(),
                key_for(all, category@) == key_for(all.take(n as int), category@),
            decreases n,
        {
            assert(all.take(n as int).last() == all[n - 1]);
            assert(all.take(n as int).drop_last() =~= all.take(n - 1));
            if same(&self.keys[n - 1].category, category) {
                return Some(&self.keys[n - 1].key);
            }
            n = n - 1;
        }
        None
    }

    /// Takes in the key of a category, out of what was read from its file.
    pub fn load(&mut self, file: KeyFile, read: Result<Vec<u8>, String>) -> (r: Result<
        (),
        KeyProblem,
    >)
        ensures
            match r {
                Ok(()) => {
                    &&& key_read(file.path@, read) is Ok
                    &&& final(self).key_of(file.category@) == Some(
                        key_read(file.path@, read)->Ok_0,
                    )
                    &&& forall|c: Seq<char>|
                        c != file.category@ ==> #[trigger] final(self).key_of(c) == old(
                            self,
                        ).key_of(c)
                },
                Err(e) => key_read(file.path@, read) == Err::<Seq<u8>, KeyProblemView>(e@)
                    && *final(self) == *old(self),
            },
    {
        match load_signing_key(&file.path, read) {
            Ok(key) => {
                self.insert(file.category, key);
                Ok(())
            },
            Err(Error::ReadKey { path, reason }) => Err(KeyProblem::Unreadable { path, reason }),
            Err(_) => Err(KeyProblem::WrongLength { path: file.path }),
        }
    }
}

/// A key file, with what was read from it.
pub struct KeyRead {
    pub file: KeyFile,
    pub read: Result<Vec<u8>, String>,
}

/// The problem of the first key file that has one.
pub open spec fn first_key_problem(reads: Seq<KeyRead>) -> Option<KeyProblemView>
    decreases reads.len(),
{
    if reads.len() == 0 {
        None
    } else {
        match first_key_problem(reads.drop_last()) {
            Some(e) => Some(e),
            None => match key_read(reads.last().file.path@, reads.last().read) {
                Ok(_) => None,
                Err(e) => Some(e),
            },
        }
    }
}

/// The key of a category, out of what was read.
pub open spec fn loaded_key(reads: Seq<KeyRead>, category: Seq<char>) -> Option<Seq<u8>>
    decreases reads.len(),
{
    if reads.len() == 0 {
        None
    } else if reads.last().file.category@ == category {
        Some(key_read(reads.last().file.path@, reads.last().read)->Ok_0)
    } else {
        loaded_key(reads.drop_last(), category)
    }
}

proof fn lemma_first_key_problem_stays(reads: Seq<KeyRead>, n: int)
    requires
        0 <= n <= reads.len(),
        first_key_problem(reads.take(n)) is Some,
    ensures
        first_key_problem(reads) == first_key_problem(reads.take(n)),
    decreases reads.len(),
{
    if n < reads.len() {
        assert(reads.drop_last().take(n) =~= reads.take(n));
        lemma_first_key_problem_stays(reads.drop_last(), n);
    } else {
        assert(reads.take(n) =~= reads);
    }
}

/// Takes in the keys of all categories. The shop does not start unless every
/// one is there.
pub fn load_signing_keys(reads: Vec<KeyRead>) -> (r: Result<SigningKeys, KeyProblem>)
    ensures
        match r {
            Ok(keys) => {
                &&& first_key_problem(reads@) is None
                &&& forall|c: Seq<char>| #[trigger] keys.key_of(c) == loaded_key(reads@, c)
            },
            Err(e) => first_key_problem(reads@) == Some(e@),
        },
{
    let ghost all = reads@;
    let mut keys = SigningKeys::new();
    for x in it: reads.into_iter()
        invariant
            it.seq() == all,
            all == reads@,
            first_key_problem(all.take(it.index() as int)) is None,
            forall|c: Seq<char>| #[trigger]
                keys.key_of(c) == loaded_key(all.take(it.index() as int), c),
    {
        let ghost i = it.index() as int;
        assert(all.take(i + 1).drop_last() =~= all.take(i));
        assert(all.take(i + 1).last() == all[i]);
        match keys.load(x.file, x.read) {
            Ok(()) => {},
            Err(e) => {
                proof {
                    lemma_first_key_problem_stays(all, i + 1);
                }
                return Err(e);
            },
        }
    }
    assert(all.take(all.len() as int) =~= all);
    Ok(keys)
}

/// When the shop starts, every file that it needed was read as a key, and each
/// category has the key in its file.
pub proof fn lemma_every_category_has_its_key(reads: Seq<KeyRead>, i: int)
    requires
        first_key_problem(reads) is None,
        0 <= i < reads.len(),
        forall|a: int, b: int|
            0 <= a < b < reads.len() ==> (#[trigger] reads[a]).file.category@ != (
            #[trigger] reads[b]).file.category@,
    ensures
        key_read(reads[i].file.path@, reads[i].read) is Ok,
        loaded_key(reads, reads[i].file.category@) == Some(
            key_read(reads[i].file.path@, reads[i].read)->Ok_0,
        ),
    decreases reads.len(),
{
    let rest = reads.drop_last();
    if i < reads.len() - 1 {
        assert forall|a: int, b: int| 0 <= a < b < rest.len() implies (
        #[trigger] rest[a]).file.category@ != (#[trigger] rest[b]).file.category@ by {
            assert(reads[a].file.category@ != reads[b].file.category@);
        }
        lemma_every_category_has_its_key(rest, i);
        assert(reads[i].file.category@ != reads[reads.len() - 1].file.category@);
    }
}

/// The shop signs for a category with the web key of that category, which lies
/// in the directory of the same name.
pub proof fn lemma_key_files_are_the_categories(
    files: Seq<KeyFile>,
    keys_dir: Seq<char>,
    categories: Seq<Seq<char>>,
)
    requires
        are_key_files(files, keys_dir, categories),
    ensures
        files.len() == categories.len(),
        forall|i: int|
            0 <= i < files.len() ==> (#[trigger] files[i]).category@ == categories[i]
                && files[i].path@ == crate::paths::joined_path(
                crate::paths::joined_path(keys_dir, categories[i]),
                "web-private.bin"@,
            ),
{
}

/// What was read is a key exactly if it has 32 bytes, and then is that key;
/// otherwise the file is named in what is wrong.
pub proof fn lemma_keys_have_32_bytes(path: Seq<char>, read: Result<Vec<u8>, String>)
    ensures
        key_read(path, read) is Ok <==> read is Ok && read->Ok_0@.len() == 32,
        key_read(path, read) matches Ok(key) ==> key == read->Ok_0@,
        read matches Ok(bytes) ==> bytes@.len() != 32 ==> key_read(path, read) == Err::<
            Seq<u8>,
            KeyProblemView,
        >(KeyProblemView::WrongLength { path }),
        read matches Err(reason) ==> key_read(path, read) == Err::<Seq<u8>, KeyProblemView>(
            KeyProblemView::Unreadable { path, reason: reason@ },
        ),
{
}

/// The shop starts exactly if every key file was read as a key; otherwise the
/// first that was not is named.
pub proof fn lemma_first_bad_key_stops_the_shop(reads: Seq<KeyRead>)
    ensures
        first_key_problem(reads) is None <==> forall|i: int|
            0 <= i < reads.len() ==> key_read((#[trigger] reads[i]).file.path@, reads[i].read)
                is Ok,
        first_key_problem(reads) matches Some(e) ==> exists|i: int|
            0 <= i < reads.len() && key_read((#[trigger] reads[i]).file.path@, reads[i].read)
                == Err::<Seq<u8>, KeyProblemView>(e) && forall|j: int|
                0 <= j < i ==> key_read((#[trigger] reads[j]).file.path@, reads[j].read) is Ok,
    decreases reads.len(),
{
    if reads.len() > 0 {
        let rest = reads.drop_last();
        let n = reads.len() - 1;
        lemma_first_bad_key_stops_the_shop(rest);
        assert forall|i: int| 0 <= i < n implies rest[i] == #[trigger] reads[i] by {}
        if first_key_problem(rest) is Some {
            let e = first_key_problem(rest)->0;
            let i = choose|i: int|
                0 <= i < rest.len() && key_read((#[trigger] rest[i]).file.path@, rest[i].read)
                    == Err::<Seq<u8>, KeyProblemView>(e) && forall|j: int|
                    0 <= j < i ==> key_read((#[trigger] rest[j]).file.path@, rest[j].read) is Ok;
            assert(reads[i] == rest[i]);
            assert forall|j: int| 0 <= j < i implies key_read(
                (#[trigger] reads[j]).file.path@,
                reads[j].read,
            ) is Ok by {
                assert(rest[j] == reads[j]);
            }
        } else {
            assert forall|j: int| 0 <= j < n implies key_read(
                (#[trigger] reads[j]).file.path@,
                reads[j].read,
            ) is Ok by {
                assert(rest[j] == reads[j]);
            }
            assert(reads[n] == reads.last());
        }
    }
}

} // verus!
