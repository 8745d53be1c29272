//! Containers for the data of a scene file: a tagged flat list of values, and
//! a field that holds nothing, one item or a list of items.

use vstd::prelude::*;

verus! {

/// A flat list of values, the tag that names its layout and the file the
/// values were taken from (empty when they stood in the scene file itself).
#[derive(Debug, Clone)]
pub struct DataField<T> {
    pub _data: Vec<T>,
    pub _type: String,
    pub _ply_file: String,
}

/// For the layout named by `tag`, the places within a stored triple that hold
/// the first, the second and the third item of the triple in `xyz` order.
/// A tag that names none of the six orders is read as `xyz`.
pub open spec fn layout_sources(tag: Seq<char>) -> (int, int, int) {
    if tag == "xzy"@ {
        (0, 2, 1)
    } else if tag == "yxz"@ {
        (1, 0, 2)
    } else if tag == "yzx"@ {
        (2, 0, 1)
    } else if tag == "zxy"@ {
        (1, 2, 0)
    } else if tag == "zyx"@ {
        (2, 1, 0)
    } else {
        (0, 1, 2)
    }
}

/// The place in the stored list from which item `i` of the `xyz` list is taken.
pub open spec fn layout_source(tag: Seq<char>, i: int) -> int {
    let p = layout_sources(tag);
    let base = i / 3 * 3;
    if i % 3 == 0 {
        base + p.0
    } else if i % 3 == 1 {
        base + p.1
    } else {
        base + p.2
    }
}

/// `data` brought from the layout `tag` to `xyz`: every whole triple is
/// reordered, and what is left over after the last whole triple is dropped.
pub open spec fn to_xyz<T>(data: Seq<T>, tag: Seq<char>) -> Seq<T> {
    Seq::new((data.len() / 3 * 3) as nat, |i: int| data[layout_source(tag, i)])
}

/// Bringing a list to `xyz` keeps every whole triple together: each item
/// comes from the triple at the same place. A list that is in `xyz` order
/// keeps its whole triples as they are.
pub proof fn to_xyz_keeps_triples_together<T>(data: Seq<T>, tag: Seq<char>)
    ensures
        to_xyz(data, tag).len() == data.len() / 3 * 3,
        forall|i: int|
            0 <= i < to_xyz(data, tag).len() ==> {
                &&& 0 <= #[trigger] layout_source(tag, i) < data.len()
                &&& layout_source(tag, i) / 3 == i / 3
            },
        to_xyz(data, "xyz"@) == data.take((data.len() / 3 * 3) as int),
{
    reveal_strlit("xyz");
    reveal_strlit("xzy");
    reveal_strlit("yxz");
    reveal_strlit("yzx");
    reveal_strlit("zxy");
    reveal_strlit("zyx");
    assert("xyz"@[1] == 'y' && "xyz"@[0] == 'x');
    assert("xzy"@[1] == 'z');
    assert("yxz"@[0] == 'y');
    assert("yzx"@[0] == 'y');
    assert("zxy"@[0] == 'z');
    assert("zyx"@[0] == 'z');
    assert(to_xyz(data, "xyz"@) =~= data.take((data.len() / 3 * 3) as int));
}

/// Whether two strings hold the same characters.
pub fn same_text(a: &str, b: &str) -> (r: bool)
    ensures
        r == (a@ == b@),
{
    let left = a.to_owned();
    let right = b.to_owned();
    left == right
}

impl<T> Default for DataField<T> {
    fn default() -> (r: Self)
        ensures
            r._data@.len() == 0,
            r._type@.len() == 0,
            r._ply_file@.len() == 0,
    {
        DataField { _data: Vec::new(), _type: String::new(), _ply_file: String::new() }
    }
}

impl<T> DataField<T> {
    /// The item at `index`.
    pub fn index(&self, index: usize) -> (r: &T)
        requires
            index < self._data@.len(),
        ensures
            *r == self._data@[index as int],
    {
        &self._data[index]
    }

    /// Puts `dummy` in front of the list, so that the item that was first is
    /// found at index 1.
    pub fn insert_dummy_at_the_beginning(&mut self, dummy: T)
        ensures
            final(self)._data@ == seq![dummy] + old(self)._data@,
            final(self)._type == old(self)._type,
            final(self)._ply_file == old(self)._ply_file,
    {
        self._data.insert(0, dummy);
        assert(self._data@ =~= seq![dummy] + old(self)._data@);
    }
}

impl<T: Copy> DataField<T> {
    /// Brings the list to the `xyz` layout. Returns `false`, and changes
    /// nothing, when the tag is `xyz` already.
    pub fn normalize_to_xyz(&mut self) -> (changed: bool)
        ensures
            changed == (old(self)._type@ != "xyz"@),
            !changed ==> *final(self) == *old(self),
            changed ==> final(self)._data@ == to_xyz(old(self)._data@, old(self)._type@),
            changed ==> final(self)._type@ == "xyz"@,
            final(self)._ply_file == old(self)._ply_file,
    {
        if same_text(self._type.as_str(), "xyz") {
            return false;
        }
        let sources: (usize, usize, usize) = if same_text(self._type.as_str(), "xzy") {
            (0, 2, 1)
        } else if same_text(self._type.as_str(), "yxz") {
            (1, 0, 2)
        } else if same_text(self._type.as_str(), "yzx") {
            (2, 0, 1)
        } else if same_text(self._type.as_str(), "zxy") {
            (1, 2, 0)
        } else if same_text(self._type.as_str(), "zyx") {
            (2, 1, 0)
        } else {
            (0, 1, 2)
        };
        let ghost tag = self._type@;
        let triples: usize = self._data.len() / 3;
        let mut new_data: Vec<T> = Vec::with_capacity(self._data.len());
        let mut k: usize = 0;
        while k < triples
            invariant
                k <= triples,
                triples == self._data@.len() / 3,
                3 * triples <= self._data@.len() <= usize::MAX,
                sources.0 < 3 && sources.1 < 3 && sources.2 < 3,
                layout_sources(tag) == (sources.0 as int, sources.1 as int, sources.2 as int),
                new_data@.len() == 3 * k,
                forall|i: int|
                    0 <= i < 3 * k ==> new_data@[i] == self._data@[layout_source(tag, i)],
            decreases triples - k,
        {
            let base: usize = 3 * k;
            let x = self._data[base + sources.0];
            let y = self._data[base + sources.1];
            let z = self._data[base + sources.2];
            new_data.push(x);
            new_data.push(y);
            new_data.push(z);
            k = k + 1;
        }
        assert(new_data@ =~= to_xyz(self._data@, tag));
        self._data = new_data;
        self._type = "xyz".to_owned();
        true
    }
}

/// A field of a scene file that may be missing, hold one item, or hold a list
/// of items.
#[derive(Debug, Clone)]
pub enum SingleOrVec<T> {
    Empty,
    Single(T),
    Multiple(Vec<T>),
}

impl<T> View for SingleOrVec<T> {
    type V = Seq<T>;

    /// The items of the field, in their order.
    open spec fn view(&self) -> Seq<T> {
        match self {
            SingleOrVec::Empty => Seq::empty(),
            SingleOrVec::Single(t) => seq![*t],
            SingleOrVec::Multiple(v) => v@,
        }
    }
}

impl<T: Clone> SingleOrVec<T> {
    /// The items of the field as a list: none, the one item, or all of them
    /// in their order.
    pub fn all(&self) -> (r: Vec<T>)
        ensures
            r@.len() == self@.len(),
            forall|i: int| 0 <= i < self@.len() ==> cloned(#[trigger] self@[i], r@[i]),
    {
        match self {
            SingleOrVec::Empty => Vec::new(),
            SingleOrVec::Single(t) => {
                let mut r: Vec<T> = Vec::new();
                r.push(t.clone());
                r
            },
            SingleOrVec::Multiple(v) => v.clone(),
        }
    }
}

impl<T: Default> Default for SingleOrVec<T> {
    fn default() -> (r: Self)
        ensures
            r == SingleOrVec::<T>::Empty,
    {
        SingleOrVec::Empty
    }
}

} // verus!
