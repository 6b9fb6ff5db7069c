use vstd::prelude::*;

verus! {

pub open spec fn entries_view(v: Seq<(String, Vec<u8>)>) -> Seq<(Seq<char>, Seq<u8>)> {
    v.map_values(|e: (String, Vec<u8>)| (e.0@, e.1@))
}

/// The first position from `k` on of an entry named `key`.
pub open spec fn index_from(e: Seq<(Seq<char>, Seq<u8>)>, key: Seq<char>, k: int) -> Option<int>
    decreases e.len() - k,
{
    if k < 0 || k >= e.len() {
        None
    } else if e[k].0 == key {
        Some(k)
    } else {
        index_from(e, key, k + 1)
    }
}

proof fn lemma_index_from(e: Seq<(Seq<char>, Seq<u8>)>, key: Seq<char>, k: int)
    ensures
        index_from(e, key, k) matches Some(i) ==> 0 <= k <= i < e.len() && e[i].0 == key,
    decreases e.len() - k,
{
    if 0 <= k < e.len() && e[k].0 != key {
        lemma_index_from(e, key, k + 1);
    }
}

/// Named binary assets: a list of `(name, bytes)` entries, looked up by the
/// first entry of a name.
#[derive(Debug)]
pub struct Assets {
    entries: Vec<(String, Vec<u8>)>,
}

impl View for Assets {
    type V = Seq<(Seq<char>, Seq<u8>)>;

    closed spec fn view(&self) -> Seq<(Seq<char>, Seq<u8>)> {
        entries_view(self.entries@)
    }
}

impl Assets {
    pub open spec fn contains(self, name: Seq<char>) -> bool {
        index_from(self@, name, 0) is Some
    }

    /// The bytes of the asset `name`.
    pub open spec fn data(self, name: Seq<char>) -> Seq<u8> {
        self@[index_from(self@, name, 0)->Some_0].1
    }

    /// The assets the client loads, by name and path.
    pub fn assets() -> (a: [(&'static str, &'static str); 3])
        ensures
            a@[0].0@ == "regular"@ && a@[0].1@ == "assets/RobotoSlab-Regular.ttf"@,
            a@[1].0@ == "heightmap"@ && a@[1].1@ == "assets/heightmap.jpeg"@,
            a@[2].0@ == "map"@ && a@[2].1@ == "assets/map.txt"@,
    {
        [
            ("regular", "assets/RobotoSlab-Regular.ttf"),
            ("heightmap", "assets/heightmap.jpeg"),
            ("map", "assets/map.txt"),
        ]
    }

    pub fn new() -> (a: Assets)
        ensures
            a@ == Seq::<(Seq<char>, Seq<u8>)>::empty(),
    {
        let a = Assets { entries: Vec::new() };
        assert(a@ =~= Seq::<(Seq<char>, Seq<u8>)>::empty());
        a
    }

    /// Position of the entry named `name`.
    fn position(&self, name: &str) -> (r: Option<usize>)
        ensures
            match r {
                Some(i) => index_from(self@, name@, 0) == Some(i as int),
                None => index_from(self@, name@, 0) is None,
            },
    {
        let key = name.to_owned();
        let mut i: usize = 0;
        while i < self.entries.len()
            invariant
                key@ == name@,
                index_from(self@, name@, 0) == index_from(self@, name@, i as int),
            decreases self.entries@.len() - i,
        {
            if self.entries[i].0 == key {
                return Some(i);
            }
            i += 1;
        }
        None
    }

    /// Adds the asset `name`, replacing the bytes of an entry of that name.
    pub fn insert(&mut self, name: String, data: Vec<u8>)
        ensures
            final(self)@ == (match index_from(old(self)@, name@, 0) {
                Some(i) => old(self)@.update(i, (name@, data@)),
                None => old(self)@.push((name@, data@)),
            }),
    {
        proof {
            lemma_index_from(self@, name@, 0);
        }
        let ghost entry = (name@, data@);
        match self.position(name.as_str()) {
            Some(i) => {
                self.entries.set(i, (name, data));
                assert(self@ =~= old(self)@.update(i as int, entry));
            },
            None => {
                self.entries.push((name, data));
                assert(self@ =~= old(self)@.push(entry));
            },
        }
    }

    /// The bytes of the asset `asset`, which must be present.
    pub fn get(&self, asset: &str) -> (d: &Vec<u8>)
        requires
            self.contains(asset@),
        ensures
            d@ == self.data(asset@),
    {
        proof {
            lemma_index_from(self@, asset@, 0);
        }
        let i = self.position(asset).unwrap();
        &self.entries[i].1
    }

    /// Removes the asset `asset`, which must be present, and returns its bytes.
    pub fn take(&mut self, asset: &str) -> (d: Vec<u8>)
        requires
            old(self).contains(asset@),
        ensures
            d@ == old(self).data(asset@),
            final(self)@ == old(self)@.remove(index_from(old(self)@, asset@, 0)->Some_0),
    {
        proof {
            lemma_index_from(self@, asset@, 0);
        }
        let i = self.position(asset).unwrap();
        let (_, data) = self.entries.remove(i);
        assert(self@ =~= old(self)@.remove(i as int));
        data
    }
}

} // verus!
