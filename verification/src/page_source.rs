//! The source viewer's backing store: the files of the current page, each
//! as a name and its contents.

use vstd::prelude::*;

verus! {

/// The fetched files of the current page: each entry is a name followed by
/// its contents.
pub struct PageSource {
    files: Vec<Vec<String>>,
}

impl View for PageSource {
    type V = Seq<Seq<Seq<char>>>;

    closed spec fn view(&self) -> Seq<Seq<Seq<char>>> {
        self.files.deep_view()
    }
}

impl PageSource {
    pub fn new() -> (r: PageSource)
        ensures
            r@ =~= Seq::<Seq<Seq<char>>>::empty(),
    {
        let r = PageSource { files: Vec::new() };
        proof {
            assert(r@ =~= Seq::<Seq<Seq<char>>>::empty());
        }
        r
    }

    /// Records one more fetched file, name first.
    pub fn add_file(&mut self, name: String, contents: String)
        ensures
            final(self)@ == old(self)@.push(seq![name@, contents@]),
    {
        let ghost before = self@;
        let ghost namev = name@;
        let ghost contentsv = contents@;
        let mut file: Vec<String> = Vec::new();
        file.push(name);
        file.push(contents);
        proof {
            assert(file.deep_view() =~= seq![namev, contentsv]);
        }
        self.files.push(file);
        proof {
            assert(self@.len() == before.len() + 1);
            assert(forall|t: int| 0 <= t < before.len() ==> self@[t] == before[t]);
            assert(self@[before.len() as int] =~= seq![namev, contentsv]);
            assert(self@ =~= before.push(seq![namev, contentsv]));
        }
    }

    /// The recorded files, in arrival order.
    pub fn get_files(&self) -> (r: &Vec<Vec<String>>)
        ensures
            r.deep_view() == self@,
    {
        &self.files
    }

    /// Forgets everything, before the next page's files arrive.
    pub fn clear(&mut self)
        ensures
            final(self)@ =~= Seq::<Seq<Seq<char>>>::empty(),
    {
        self.files = Vec::new();
        proof {
            assert(self@ =~= Seq::<Seq<Seq<char>>>::empty());
        }
    }
}

} // verus!
