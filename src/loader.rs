use vstd::prelude::*;
use crate::keyed::{keys_unique, lookup, position, upsert};
use crate::errors::LoadError;
use crate::yaml_data::YamlData;

verus! {

/// The file name of collection `name`: the name with the `.yaml` extension.
pub open spec fn yaml_file_name(name: Seq<char>) -> Seq<char> {
    name + ".yaml"@
}

/// `read`, given the file name of collection `name`, may hand back `out`.
pub open spec fn read_gives<F: Fn(&str) -> Result<Vec<YamlData>, LoadError>>(
    read: F,
    name: Seq<char>,
    out: Result<Vec<YamlData>, LoadError>,
) -> bool {
    exists|file: &str| file@ == yaml_file_name(name) && read.ensures((file,), out)
}

/// From `before` to `now`, each of the first `k` of `names` was stored with
/// records that `read` handed back for it, and every other collection was
/// left as it was.
pub open spec fn stored_upto<F: Fn(&str) -> Result<Vec<YamlData>, LoadError>>(
    now: YangLoader,
    before: YangLoader,
    read: F,
    names: Seq<String>,
    k: int,
) -> bool {
    &&& forall|i: int|
        0 <= i < k ==> exists|records: Vec<YamlData>|
            now.resource((#[trigger] names[i])@) == Some(records@) && read_gives(
                read,
                names[i]@,
                Ok(records),
            )
    &&& forall|n: Seq<char>|
        (forall|i: int| 0 <= i < k ==> (#[trigger] names[i])@ != n) ==> #[trigger] now.resource(n)
            == before.resource(n)
}

/// A collection whose read failed, that was not stored before and that does
/// not occur earlier in the list, is left without an entry.
pub proof fn lemma_failed_collection_absent<F: Fn(&str) -> Result<Vec<YamlData>, LoadError>>(
    now: YangLoader,
    before: YangLoader,
    read: F,
    names: Seq<String>,
    k: int,
)
    requires
        0 <= k < names.len(),
        stored_upto(now, before, read, names, k),
        before.resource(names[k]@) is None,
        forall|j: int| 0 <= j < k ==> (#[trigger] names[j])@ != names[k]@,
    ensures
        now.resource(names[k]@) is None,
{
}

/// A store of named record collections, read from one base directory.
pub struct YangLoader {
    file_path: String,
    file_names: Vec<String>,
    resources: Vec<(String, Vec<YamlData>)>,
}

impl YangLoader {
    /// The base directory.
    pub closed spec fn spec_file_path(&self) -> Seq<char> {
        self.file_path@
    }

    /// The collection names to load, in order.
    pub closed spec fn spec_file_names(&self) -> Seq<String> {
        self.file_names@
    }

    /// The stored collections, in the order they were first stored.
    pub closed spec fn spec_resources(&self) -> Seq<(String, Vec<YamlData>)> {
        self.resources@
    }

    /// The records stored for collection `name`, if it was stored.
    pub open spec fn resource(&self, name: Seq<char>) -> Option<Seq<YamlData>> {
        match lookup(self.spec_resources(), name) {
            Some(records) => Some(records@),
            None => None,
        }
    }

    /// Collection names are unique.
    pub open spec fn wf(&self) -> bool {
        keys_unique(self.spec_resources())
    }

    /// A loader for the given base directory and collection names, with
    /// nothing stored yet.
    pub fn new(file_path: String, file_names: Vec<String>) -> (r: Self)
        ensures
            r.wf(),
            r.spec_file_path() == file_path@,
            r.spec_file_names() == file_names@,
            r.spec_resources().len() == 0,
            forall|name: Seq<char>| r.resource(name) is None,
    {
        YangLoader { file_path, file_names, resources: Vec::new() }
    }

    pub fn file_path(&self) -> (r: &str)
        ensures
            r@ == self.spec_file_path(),
    {
        self.file_path.as_str()
    }

    pub fn file_names(&self) -> (r: &[String])
        ensures
            r@ == self.spec_file_names(),
    {
        self.file_names.as_slice()
    }

    /// The name of the file that holds collection `file_name`.
    pub fn add_yaml(&self, file_name: &str) -> (r: String)
        ensures
            r@ == yaml_file_name(file_name@),
    {
        let mut p = String::from_str(file_name);
        p.append(".yaml");
        p
    }

    /// Stores `records` as collection `name`, replacing what was stored
    /// under that name before. Other collections are kept.
    pub fn insert_resource(&mut self, name: String, records: Vec<YamlData>)
        requires
            old(self).wf(),
        ensures
            final(self).wf(),
            final(self).spec_file_path() == old(self).spec_file_path(),
            final(self).spec_file_names() == old(self).spec_file_names(),
            final(self).resource(name@) == Some(records@),
            forall|k: Seq<char>| k != name@ ==> final(self).resource(k) == old(self).resource(k),
    {
        upsert(&mut self.resources, name, records);
    }

    /// Loads each collection of `file_names` in order: `read` is handed the
    /// collection's file name and hands back its records, which are stored
    /// under the collection's name. The first failure is returned at once and
    /// the remaining names are not read; what was stored before it stays.
    pub fn load<F: Fn(&str) -> Result<Vec<YamlData>, LoadError>>(&mut self, read: F) -> (r: Result<
        (),
        LoadError,
    >)
        requires
            old(self).wf(),
            forall|file: &str| read.requires((file,)),
        ensures
            final(self).wf(),
            final(self).spec_file_path() == old(self).spec_file_path(),
            final(self).spec_file_names() == old(self).spec_file_names(),
            match r {
                Ok(()) => stored_upto(
                    *final(self),
                    *old(self),
                    read,
                    old(self).spec_file_names(),
                    old(self).spec_file_names().len() as int,
                ),
                Err(e) => exists|k: int|
                    0 <= k < old(self).spec_file_names().len() && stored_upto(
                        *final(self),
                        *old(self),
                        read,
                        old(self).spec_file_names(),
                        k,
                    ) && read_gives(read, old(self).spec_file_names()[k]@, Err(e)),
            },
    {
        let ghost names = self.file_names@;
        let mut i: usize = 0;
        while i < self.file_names.len()
            invariant
                self.wf(),
                self.file_path@ == old(self).file_path@,
                self.file_names@ == names,
                names == old(self).spec_file_names(),
                0 <= i <= names.len(),
                forall|file: &str| read.requires((file,)),
                stored_upto(*self, *old(self), read, names, i as int),
            decreases names.len() - i,
        {
            let file = self.add_yaml(self.file_names[i].as_str());
            let f: &str = file.as_str();
            let out = read(f);
            assert(read_gives(read, names[i as int]@, out));
            match out {
                Ok(records) => {
                    let name = self.file_names[i].clone();
                    let ghost mid = *self;
                    let ghost stored = records;
                    self.insert_resource(name, records);
                    proof {
                        assert forall|j: int| 0 <= j < i + 1 implies exists|rs: Vec<YamlData>|
                            self.resource((#[trigger] names[j])@) == Some(rs@) && read_gives(
                                read,
                                names[j]@,
                                Ok(rs),
                            ) by {
                            if names[j]@ == names[i as int]@ {
                                assert(self.resource(names[j]@) == Some(stored@));
                            } else {
                                let rs = choose|rs: Vec<YamlData>|
                                    mid.resource((#[trigger] names[j])@) == Some(rs@) && read_gives(
                                        read,
                                        names[j]@,
                                        Ok(rs),
                                    );
                                assert(self.resource(names[j]@) == Some(rs@));
                            }
                        }
                        assert forall|n: Seq<char>|
                            (forall|j: int| 0 <= j < i + 1 ==> (#[trigger] names[j])@ != n) implies #[trigger] self.resource(n)
                            == old(self).resource(n) by {
                            assert(names[i as int]@ != n);
                            assert(mid.resource(n) == old(self).resource(n));
                        }
                    }
                },
                Err(e) => {
                    return Err(e);
                },
            }
            i = i + 1;
        }
        Ok(())
    }

    /// Every stored collection, in the order they were first stored.
    pub fn get_all_resources(&self) -> (r: Vec<&[YamlData]>)
        ensures
            r@.len() == self.spec_resources().len(),
            forall|i: int| 0 <= i < r@.len() ==> (#[trigger] r@[i])@ == self.spec_resources()[i].1@,
    {
        let mut all: Vec<&[YamlData]> = Vec::new();
        let mut i: usize = 0;
        while i < self.resources.len()
            invariant
                0 <= i <= self.resources.len(),
                all@.len() == i,
                forall|j: int| 0 <= j < i ==> (#[trigger] all@[j])@ == self.resources@[j].1@,
            decreases self.resources.len() - i,
        {
            all.push(self.resources[i].1.as_slice());
            i = i + 1;
        }
        all
    }

    /// The records stored for collection `file_name`, if it was stored.
    pub fn get_resource(&self, file_name: &str) -> (r: Option<&[YamlData]>)
        requires
            self.wf(),
        ensures
            match r {
                Some(records) => self.resource(file_name@) == Some(records@),
                None => self.resource(file_name@) is None,
            },
    {
        match position(&self.resources, file_name) {
            Some(i) => Some(self.resources[i].1.as_slice()),
            None => None,
        }
    }
}

} // verus!
