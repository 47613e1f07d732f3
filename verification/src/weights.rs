//! A checkpoint's tensors by name.

use vstd::prelude::*;

use crate::gpu::{DenseWeight, DevicePtr, GpuError};

verus! {

/// Why weights could not be loaded.
#[derive(Debug)]
pub enum LoadError {
    /// The checkpoint has no tensor of this name.
    Missing { name: String },
    Gpu(GpuError),
}

/// The tensors of a checkpoint, by name. Where a name was given twice, the first
/// tensor stands.
pub struct WeightStore {
    pub names: Vec<String>,
    pub tensors: Vec<DevicePtr>,
}

impl View for WeightStore {
    type V = Map<Seq<char>, DevicePtr>;

    open spec fn view(&self) -> Map<Seq<char>, DevicePtr> {
        by_name(self.names@, self.tensors@)
    }
}

/// The tensors by name; of two of one name, the first.
pub open spec fn by_name(names: Seq<String>, tensors: Seq<DevicePtr>) -> Map<Seq<char>, DevicePtr>
    decreases names.len(),
{
    if names.len() == 0 {
        Map::empty()
    } else {
        by_name(names.skip(1), tensors.skip(1)).insert(names[0]@, tensors[0])
    }
}

proof fn lemma_by_name(names: Seq<String>, tensors: Seq<DevicePtr>, k: int, name: Seq<char>)
    requires
        names.len() == tensors.len(),
        0 <= k <= names.len(),
        forall|j: int| 0 <= j < k ==> #[trigger] names[j]@ != name,
    ensures
        k < names.len() && names[k]@ == name ==> by_name(names, tensors).contains_pair(name, tensors[k]),
        k == names.len() ==> !by_name(names, tensors).contains_key(name),
    decreases names.len(),
{
    if names.len() > 0 && k > 0 {
        assert forall|j: int| 0 <= j < k - 1 implies #[trigger] names.skip(1)[j]@ != name by {
            assert(names[j + 1]@ != name);
        }
        lemma_by_name(names.skip(1), tensors.skip(1), k - 1, name);
        assert(names[0]@ != name);
    }
}

proof fn lemma_by_name_push(names: Seq<String>, tensors: Seq<DevicePtr>, name: String, tensor: DevicePtr)
    requires
        names.len() == tensors.len(),
    ensures
        by_name(names.push(name), tensors.push(tensor)) == (if by_name(names, tensors).contains_key(name@) {
            by_name(names, tensors)
        } else {
            by_name(names, tensors).insert(name@, tensor)
        }),
    decreases names.len(),
{
    let n2 = names.push(name);
    let t2 = tensors.push(tensor);
    if names.len() == 0 {
        assert(n2.skip(1) =~= Seq::empty());
        assert(by_name(n2.skip(1), t2.skip(1)) =~= Map::empty());
        assert(n2[0] == name && t2[0] == tensor);
    } else {
        assert(n2.skip(1) =~= names.skip(1).push(name));
        assert(t2.skip(1) =~= tensors.skip(1).push(tensor));
        lemma_by_name_push(names.skip(1), tensors.skip(1), name, tensor);
        assert(n2[0] == names[0] && t2[0] == tensors[0]);
        let rest = by_name(names.skip(1), tensors.skip(1));
        assert(rest.insert(name@, tensor).insert(names[0]@, tensors[0]) =~= if names[0]@ == name@ {
            rest.insert(names[0]@, tensors[0])
        } else {
            rest.insert(names[0]@, tensors[0]).insert(name@, tensor)
        });
    }
}

impl WeightStore {
    /// Names and tensors go in pairs.
    pub open spec fn wf(&self) -> bool {
        self.names@.len() == self.tensors@.len()
    }

    pub fn new() -> (r: WeightStore)
        ensures
            r.wf(),
            r@ == Map::<Seq<char>, DevicePtr>::empty(),
    {
        WeightStore { names: Vec::new(), tensors: Vec::new() }
    }

    /// Adds a tensor, unless there is one of that name.
    pub fn insert(&mut self, name: String, tensor: DevicePtr)
        requires
            old(self).wf(),
        ensures
            final(self).wf(),
            final(self)@ == (if old(self)@.contains_key(name@) {
                old(self)@
            } else {
                old(self)@.insert(name@, tensor)
            }),
    {
        proof {
            lemma_by_name_push(self.names@, self.tensors@, name, tensor);
        }
        self.names.push(name);
        self.tensors.push(tensor);
    }

    /// The tensor of a name.
    pub fn get(&self, name: &str) -> (r: Option<DevicePtr>)
        requires
            self.wf(),
        ensures
            match r {
                Some(p) => self@.contains_pair(name@, p),
                None => !self@.contains_key(name@),
            },
    {
        let wanted = name.to_owned();
        let mut i: usize = 0;
        while i < self.names.len()
            invariant
                self.wf(),
                i <= self.names@.len(),
                wanted@ == name@,
                forall|j: int| 0 <= j < i ==> #[trigger] self.names@[j]@ != name@,
            decreases self.names@.len() - i,
        {
            if self.names[i] == wanted {
                proof {
                    lemma_by_name(self.names@, self.tensors@, i as int, name@);
                }
                return Some(self.tensors[i]);
            }
            i += 1;
        }
        proof {
            lemma_by_name(self.names@, self.tensors@, i as int, name@);
        }
        None
    }

    /// Whether there is a tensor of a name.
    pub fn contains(&self, name: &str) -> (r: bool)
        requires
            self.wf(),
        ensures
            r == self@.contains_key(name@),
    {
        self.get(name).is_some()
    }
}

/// The characters of a list of names.
pub open spec fn name_views(names: Seq<String>) -> Seq<Seq<char>> {
    Seq::new(names.len(), |i: int| names[i]@)
}

/// `name` is the first of `names` that the store lacks.
pub open spec fn first_missing(store: Map<Seq<char>, DevicePtr>, names: Seq<Seq<char>>, name: Seq<char>) -> bool {
    exists|k: int|
        #![trigger names[k]]
        {
            &&& 0 <= k < names.len()
            &&& names[k] == name
            &&& !store.contains_key(name)
            &&& forall|j: int| 0 <= j < k ==> store.contains_key(#[trigger] names[j])
        }
}

/// Looks names up in order, and stops at the first that is missing.
pub fn dense_all(store: &WeightStore, names: &Vec<String>) -> (r: Result<Vec<DenseWeight>, LoadError>)
    requires
        store.wf(),
    ensures
        match r {
            Ok(ws) => {
                &&& ws@.len() == names@.len()
                &&& forall|i: int|
                    #![trigger ws@[i]]
                    0 <= i < ws@.len() ==> store@.contains_pair(names@[i]@, ws@[i].weight)
            },
            Err(LoadError::Missing { name }) => first_missing(store@, name_views(names@), name@),
            Err(LoadError::Gpu(_)) => false,
        },
{
    let mut ws: Vec<DenseWeight> = Vec::new();
    let mut i: usize = 0;
    while i < names.len()
        invariant
            store.wf(),
            i <= names@.len(),
            ws@.len() == i,
            forall|j: int|
                #![trigger ws@[j]]
                0 <= j < i ==> store@.contains_pair(names@[j]@, ws@[j].weight),
        decreases names@.len() - i,
    {
        match store.get(names[i].as_str()) {
            Some(weight) => {
                ws.push(DenseWeight { weight });
            },
            None => {
                let name = names[i].clone();
                proof {
                    let views = name_views(names@);
                    assert(views[i as int] == name@);
                    assert forall|j: int| 0 <= j < i implies store@.contains_key(#[trigger] views[j]) by {
                        assert(store@.contains_pair(names@[j]@, ws@[j].weight));
                    }
                }
                return Err(LoadError::Missing { name });
            },
        }
        i += 1;
    }
    Ok(ws)
}

} // verus!
