use crate::path::{is_sorted, sort_paths, to_url, url_of, PathSortable};
use rand::seq::SliceRandom;
use vstd::prelude::*;

verus! {

/// One entry of a directory listing: its full path, its file name, and whether the
/// filesystem reported a regular file.
#[derive(Debug)]
pub struct DirEntry {
    pub path: String,
    pub name: String,
    pub is_file: bool,
}

/// A character in ASCII lower case; other characters stay as they are.
pub open spec fn ascii_lower(c: char) -> char {
    if 'A' <= c && c <= 'Z' {
        ((c as int) + 32) as char
    } else {
        c
    }
}

/// Whether `e`, compared without regard to ASCII case, is one of the image extensions.
pub open spec fn is_image_extension(e: Seq<char>) -> bool {
    let l = e.map_values(|c: char| ascii_lower(c));
    ||| l == seq!['j', 'p', 'g']
    ||| l == seq!['j', 'p', 'e', 'g']
    ||| l == seq!['p', 'n', 'g']
    ||| l == seq!['b', 'm', 'p']
    ||| l == seq!['g', 'i', 'f']
    ||| l == seq!['w', 'e', 'b', 'p']
    ||| l == seq!['a', 'v', 'i', 'f']
}

/// Whether position `k` of a file name holds the dot before its extension: the last dot,
/// where that is not the name's first character.
pub open spec fn extension_start(name: Seq<char>, k: int) -> bool {
    &&& 0 < k < name.len()
    &&& name[k] == '.'
    &&& forall|j: int| k < j < name.len() ==> name[j] != '.'
}

/// Whether a file name carries an image extension.
pub open spec fn has_image_extension(name: Seq<char>) -> bool {
    exists|k: int| extension_start(name, k) && is_image_extension(name.skip(k + 1))
}

/// Whether a file name marks a hidden file.
pub open spec fn is_hidden(name: Seq<char>) -> bool {
    name.len() > 0 && name[0] == '.'
}

/// Whether a directory entry is an image that the viewer shows.
pub open spec fn is_image_entry(e: DirEntry) -> bool {
    e.is_file && !is_hidden(e.name@) && has_image_extension(e.name@)
}

/// The images of a listing, in listing order.
pub open spec fn image_files(entries: Seq<DirEntry>) -> Seq<PathSortable>
    decreases entries.len(),
{
    if entries.len() == 0 {
        Seq::empty()
    } else {
        let rest = image_files(entries.drop_last());
        if is_image_entry(entries.last()) {
            rest.push(PathSortable(entries.last().path))
        } else {
            rest
        }
    }
}

fn lower_char(c: char) -> (r: char)
    ensures
        r == ascii_lower(c),
{
    if 'A' <= c && c <= 'Z' {
        ((c as u8) + 32) as char
    } else {
        c
    }
}

/// Whether the characters of `name` from `from` on, lowered, spell `word`.
fn tail_equals_lowered(name: &str, from: usize, word: &str) -> (r: bool)
    requires
        from <= name@.len(),
    ensures
        r == (name@.skip(from as int).map_values(|c: char| ascii_lower(c)) == word@),
{
    let n = name.unicode_len();
    let m = word.unicode_len();
    let ghost l = name@.skip(from as int).map_values(|c: char| ascii_lower(c));
    if n - from != m {
        assert(l.len() != word@.len());
        return false;
    }
    let mut i: usize = 0;
    while i < m
        invariant
            n == name@.len(),
            m == word@.len(),
            n - from == m,
            from <= n,
            l == name@.skip(from as int).map_values(|c: char| ascii_lower(c)),
            i <= m,
            forall|j: int| 0 <= j < i ==> l[j] == word@[j],
        decreases m - i,
    {
        if lower_char(name.get_char(from + i)) != word.get_char(i) {
            assert(l[i as int] != word@[i as int]);
            return false;
        }
        i = i + 1;
    }
    assert(l =~= word@);
    true
}

/// Whether the characters of `name` from `from` on form an image extension.
fn is_image_extension_at(name: &str, from: usize) -> (r: bool)
    requires
        from <= name@.len(),
    ensures
        r == is_image_extension(name@.skip(from as int)),
{
    proof {
        reveal_strlit("jpg");
        reveal_strlit("jpeg");
        reveal_strlit("png");
        reveal_strlit("bmp");
        reveal_strlit("gif");
        reveal_strlit("webp");
        reveal_strlit("avif");
    }
    let r = tail_equals_lowered(name, from, "jpg") || tail_equals_lowered(name, from, "jpeg")
        || tail_equals_lowered(name, from, "png") || tail_equals_lowered(name, from, "bmp")
        || tail_equals_lowered(name, from, "gif") || tail_equals_lowered(name, from, "webp")
        || tail_equals_lowered(name, from, "avif");
    proof {
        assert("jpg"@ =~= seq!['j', 'p', 'g']);
        assert("jpeg"@ =~= seq!['j', 'p', 'e', 'g']);
        assert("png"@ =~= seq!['p', 'n', 'g']);
        assert("bmp"@ =~= seq!['b', 'm', 'p']);
        assert("gif"@ =~= seq!['g', 'i', 'f']);
        assert("webp"@ =~= seq!['w', 'e', 'b', 'p']);
        assert("avif"@ =~= seq!['a', 'v', 'i', 'f']);
    }
    r
}

/// Whether a file name carries an image extension.
pub fn has_image_name(name: &str) -> (r: bool)
    ensures
        r == has_image_extension(name@),
{
    let n = name.unicode_len();
    let mut k: usize = n;
    while k > 0 && name.get_char(k - 1) != '.'
        invariant
            n == name@.len(),
            k <= n,
            forall|j: int| k <= j < n ==> name@[j] != '.',
        decreases k,
    {
        k = k - 1;
    }
    if k <= 1 {
        assert forall|d: int| !extension_start(name@, d) by {
            if extension_start(name@, d) && k == 1 {
                assert(name@[0] == '.' || d >= 1);
            }
        }
        return false;
    }
    assert(extension_start(name@, k - 1));
    assert forall|d: int| extension_start(name@, d) implies d == k - 1 by {
        if d < k - 1 {
            assert(name@[k - 1] != '.');
        }
    }
    is_image_extension_at(name, k)
}


/// Whether a directory entry is an image that the viewer shows.
pub fn is_image(e: &DirEntry) -> (r: bool)
    ensures
        r == is_image_entry(*e),
{
    if !e.is_file {
        return false;
    }
    let name = e.name.as_str();
    if name.unicode_len() > 0 && name.get_char(0) == '.' {
        return false;
    }
    has_image_name(name)
}

/// The images of a listing, in listing order.
pub fn filter_images(entries: &Vec<DirEntry>) -> (r: Vec<PathSortable>)
    ensures
        r@ == image_files(entries@),
{
    let mut r: Vec<PathSortable> = Vec::new();
    let mut i: usize = 0;
    while i < entries.len()
        invariant
            i <= entries@.len(),
            r@ == image_files(entries@.take(i as int)),
        decreases entries@.len() - i,
    {
        assert(entries@.take(i + 1).drop_last() =~= entries@.take(i as int));
        if is_image(&entries[i]) {
            r.push(PathSortable(entries[i].path.clone()));
        }
        i = i + 1;
    }
    assert(entries@.take(i as int) =~= entries@);
    r
}

/// Why a directory could not be opened.
#[derive(Debug)]
pub enum LoadError {
    /// Listing the directory failed; the message says why.
    DirectoryUnreadable(String),
    /// The directory holds no image that the viewer shows.
    EmptyDirectory,
}

impl LoadError {
    /// A description of the error for the user.
    pub fn message(&self) -> (r: String)
        ensures
            self matches LoadError::DirectoryUnreadable(m) ==> r@ == m@,
            self is EmptyDirectory ==> r@ == "No image files found in directory"@,
    {
        match self {
            LoadError::DirectoryUnreadable(m) => m.clone(),
            LoadError::EmptyDirectory => String::from_str("No image files found in directory"),
        }
    }
}

/// Relies on rand's `SliceRandom::shuffle` with the thread-local generator of `rand::rng`:
/// afterwards the vector holds the same items, in some order.
#[verifier::external_body]
fn shuffle_paths(files: &mut Vec<PathSortable>)
    ensures
        final(files)@.to_multiset() == old(files)@.to_multiset(),
{
    let mut rng = rand::rng();
    files.as_mut_slice().shuffle(&mut rng);
}

/// The index after `i` in a ring of `n`.
pub open spec fn next_index(i: int, n: int) -> int {
    (i + 1) % n
}

/// The index before `i` in a ring of `n`.
pub open spec fn prev_index(i: int, n: int) -> int {
    if i == 0 {
        n - 1
    } else {
        i - 1
    }
}

/// Where a path equal to `anchor` first stands in `files`.
pub fn position_of(files: &Vec<PathSortable>, anchor: &PathSortable) -> (j: usize)
    requires
        files@.contains(*anchor),
    ensures
        j < files@.len(),
        files@[j as int]@ == anchor@,
        forall|k: int| 0 <= k < j ==> files@[k]@ != anchor@,
{
    let ghost at = choose|k: int| 0 <= k < files@.len() && files@[k] == *anchor;
    let mut j: usize = 0;
    while j < files.len() && !(files[j] == *anchor)
        invariant
            0 <= at < files@.len(),
            files@[at] == *anchor,
            j <= at,
            forall|k: int| 0 <= k < j ==> files@[k]@ != anchor@,
        decreases files@.len() - j,
    {
        j = j + 1;
    }
    j
}

/// The index `k` steps after `i` in a ring of `n`.
pub open spec fn steps_forward(i: int, k: nat, n: int) -> int
    decreases k,
{
    if k == 0 {
        i
    } else {
        next_index(steps_forward(i, (k - 1) as nat, n), n)
    }
}

proof fn lemma_wrap_step(x: int, n: int)
    requires
        0 <= x < n,
    ensures
        next_index(x, n) == if x + 1 < n {
            x + 1
        } else {
            0
        },
{
    if x + 1 < n {
        vstd::arithmetic::div_mod::lemma_small_mod((x + 1) as nat, n as nat);
    } else {
        vstd::arithmetic::div_mod::lemma_fundamental_div_mod_converse(x + 1, n, 1, 0);
    }
}

proof fn lemma_steps_forward(i: int, k: nat, n: int)
    requires
        0 <= i < n,
        k <= n,
    ensures
        steps_forward(i, k, n) == if i + k < n {
            i + k
        } else {
            i + k - n
        },
    decreases k,
{
    if k > 0 {
        lemma_steps_forward(i, (k - 1) as nat, n);
        lemma_wrap_step(steps_forward(i, (k - 1) as nat, n), n);
    }
}

/// Whether position `j` is met within fewer than `n` steps forward from `i`.
pub open spec fn reached_within(i: int, j: int, n: int) -> bool {
    exists|k: nat| k < n && #[trigger] steps_forward(i, k, n) == j
}

/// Stepping forward and then back, or back and then forward, returns to the starting
/// position, in a ring of any size.
pub proof fn lemma_next_prev_round_trip(i: int, n: int)
    requires
        0 <= i < n,
    ensures
        prev_index(next_index(i, n), n) == i,
        next_index(prev_index(i, n), n) == i,
{
    lemma_wrap_step(i, n);
    lemma_wrap_step(prev_index(i, n), n);
}

/// Stepping forward from any position meets each of the `n` positions exactly once in `n`
/// steps and is then back at the start; from the last position it wraps to the first.
pub proof fn lemma_next_cycles(i: int, n: int)
    requires
        0 <= i < n,
    ensures
        next_index(n - 1, n) == 0,
        steps_forward(i, n as nat, n) == i,
        forall|a: nat, b: nat|
            a < b < n ==> #[trigger] steps_forward(i, a, n) != #[trigger] steps_forward(i, b, n),
        forall|j: int| 0 <= j < n ==> #[trigger] reached_within(i, j, n),
{
    lemma_wrap_step(n - 1, n);
    lemma_steps_forward(i, n as nat, n);
    assert forall|a: nat, b: nat| a < b < n implies #[trigger] steps_forward(i, a, n)
        != #[trigger] steps_forward(i, b, n) by {
        lemma_steps_forward(i, a, n);
        lemma_steps_forward(i, b, n);
    }
    assert forall|j: int| 0 <= j < n implies #[trigger] reached_within(i, j, n) by {
        let k: nat = if j >= i {
            (j - i) as nat
        } else {
            (j + n - i) as nat
        };
        lemma_steps_forward(i, k, n);
        assert(steps_forward(i, k, n) == j);
    }
}

/// What a dropped item turned out to be on disk.
#[derive(Debug, Clone, Copy)]
pub enum DropKind {
    Directory,
    File,
    /// Neither a directory nor a regular file, or not a local path at all.
    Other,
}

/// Whether `i` is the first position in `kinds` that holds a directory (where `dir`) or a
/// regular file (where not).
pub open spec fn first_of_kind(kinds: Seq<DropKind>, dir: bool, i: int) -> bool {
    &&& 0 <= i < kinds.len()
    &&& if dir {
        kinds[i] is Directory
    } else {
        kinds[i] is File
    }
    &&& forall|j: int|
        0 <= j < i ==> !(if dir {
            kinds[j] is Directory
        } else {
            kinds[j] is File
        })
}

/// Which of the dropped items to open: the first directory; without one, the first regular
/// file; without either, none.
pub fn first_openable(kinds: &Vec<DropKind>) -> (r: Option<usize>)
    ensures
        (exists|j: int| 0 <= j < kinds@.len() && kinds@[j] is Directory) ==> (r matches Some(i)
            && first_of_kind(kinds@, true, i as int)),
        (forall|j: int| 0 <= j < kinds@.len() ==> !(kinds@[j] is Directory)) && (exists|j: int|
            0 <= j < kinds@.len() && kinds@[j] is File) ==> (r matches Some(i) && first_of_kind(
            kinds@,
            false,
            i as int,
        )),
        (forall|j: int| 0 <= j < kinds@.len() ==> kinds@[j] is Other) ==> r is None,
{
    let mut file: Option<usize> = None;
    let mut i: usize = 0;
    while i < kinds.len()
        invariant
            i <= kinds@.len(),
            forall|j: int| 0 <= j < i ==> !(kinds@[j] is Directory),
            match file {
                Some(f) => first_of_kind(kinds@, false, f as int) && f < i,
                None => forall|j: int| 0 <= j < i ==> !(kinds@[j] is File),
            },
        decreases kinds@.len() - i,
    {
        match kinds[i] {
            DropKind::Directory => {
                return Some(i);
            },
            DropKind::File => {
                if file.is_none() {
                    file = Some(i);
                }
            },
            DropKind::Other => {},
        }
        i = i + 1;
    }
    file
}

/// The state of the image browser: the paths it shows, the position of the one on screen,
/// and whether the paths are shuffled rather than in path order.
pub struct ImageViewer {
    current_src: Option<String>,
    image_size: [usize; 2],
    files: Vec<PathSortable>,
    index: usize,
    randomize: bool,
}

impl Default for ImageViewer {
    /// An empty browser that will shuffle what it opens.
    fn default() -> (r: ImageViewer)
        ensures
            r.wf(),
            r.paths().len() == 0,
            r.shuffled(),
            r.size() == seq![0usize, 0usize],
    {
        let r = ImageViewer {
            current_src: None,
            image_size: [0, 0],
            files: Vec::new(),
            index: 0,
            randomize: true,
        };
        assert(r.image_size@ =~= seq![0usize, 0usize]);
        r
    }
}

impl ImageViewer {
    /// The paths, in the order in which they are shown.
    pub closed spec fn paths(&self) -> Seq<PathSortable> {
        self.files@
    }

    /// The position of the path on screen.
    pub closed spec fn position(&self) -> int {
        self.index as int
    }

    /// The source string handed to the renderer, if any.
    pub closed spec fn source(&self) -> Option<Seq<char>> {
        match self.current_src {
            Some(s) => Some(s@),
            None => None,
        }
    }

    /// Whether the paths are shuffled rather than in path order.
    pub closed spec fn shuffled(&self) -> bool {
        self.randomize
    }

    /// The intrinsic size of the image on screen; zero while unknown.
    pub closed spec fn size(&self) -> Seq<usize> {
        self.image_size@
    }

    /// The path on screen, as a string.
    pub open spec fn shown(&self) -> Seq<char> {
        self.paths()[self.position()]@
    }

    /// The state is consistent: with paths, the position is one of them and the renderer
    /// is given that path; without, nothing is shown.
    pub open spec fn wf(&self) -> bool {
        if self.paths().len() == 0 {
            self.position() == 0 && self.source() is None
        } else {
            &&& 0 <= self.position() < self.paths().len()
            &&& self.source() == Some(url_of(self.shown()))
        }
    }

    /// Points the renderer at the path at `index`, whose size is not known yet.
    fn show_current(&mut self)
        requires
            old(self).index < old(self).files@.len(),
        ensures
            final(self).files == old(self).files,
            final(self).index == old(self).index,
            final(self).randomize == old(self).randomize,
            final(self).wf(),
            final(self).size() == seq![0usize, 0usize],
    {
        self.current_src = Some(to_url(self.files[self.index].as_str()));
        self.image_size = [0, 0];
        assert(self.image_size@ =~= seq![0usize, 0usize]);
    }

    /// Steps to the next path, from the last back to the first; nothing happens without
    /// paths.
    pub fn next(&mut self)
        requires
            old(self).wf(),
        ensures
            final(self).wf(),
            final(self).paths() == old(self).paths(),
            final(self).shuffled() == old(self).shuffled(),
            old(self).paths().len() == 0 ==> *final(self) == *old(self),
            old(self).paths().len() > 0 ==> {
                &&& final(self).position() == next_index(
                    old(self).position(),
                    old(self).paths().len() as int,
                )
                &&& final(self).size() == seq![0usize, 0usize]
            },
    {
        if self.files.len() == 0 {
            return;
        }
        self.index = (self.index + 1) % self.files.len();
        self.show_current();
    }

    /// Steps to the previous path, from the first back to the last; nothing happens
    /// without paths.
    pub fn prev(&mut self)
        requires
            old(self).wf(),
        ensures
            final(self).wf(),
            final(self).paths() == old(self).paths(),
            final(self).shuffled() == old(self).shuffled(),
            old(self).paths().len() == 0 ==> *final(self) == *old(self),
            old(self).paths().len() > 0 ==> {
                &&& final(self).position() == prev_index(
                    old(self).position(),
                    old(self).paths().len() as int,
                )
                &&& final(self).size() == seq![0usize, 0usize]
            },
    {
        if self.files.len() == 0 {
            return;
        }
        if self.index == 0 {
            self.index = self.files.len() - 1;
        } else {
            self.index = self.index - 1;
        }
        self.show_current();
    }

    /// The paths, in the order in which they are shown.
    pub fn files(&self) -> (r: &Vec<PathSortable>)
        ensures
            r@ == self.paths(),
    {
        &self.files
    }

    /// The position of the path on screen.
    pub fn index(&self) -> (r: usize)
        ensures
            r == self.position(),
    {
        self.index
    }

    /// The source string handed to the renderer, if any.
    pub fn current_src(&self) -> (r: Option<String>)
        ensures
            r is Some <==> self.source() is Some,
            r is Some ==> self.source() == Some(r->0@),
    {
        match &self.current_src {
            Some(s) => Some(s.clone()),
            None => None,
        }
    }

    /// Whether the paths are shuffled rather than in path order.
    pub fn randomize(&self) -> (r: bool)
        ensures
            r == self.shuffled(),
    {
        self.randomize
    }

    /// The intrinsic size of the image on screen; zero while unknown.
    pub fn image_size(&self) -> (r: [usize; 2])
        ensures
            r@ == self.size(),
    {
        self.image_size
    }

    /// Puts the paths in order for the mode: shuffled, or in path order.
    fn arrange(&mut self)
        ensures
            final(self).files@.to_multiset() == old(self).files@.to_multiset(),
            final(self).files@.len() == old(self).files@.len(),
            !old(self).randomize ==> is_sorted(final(self).files@),
            final(self).randomize == old(self).randomize,
            final(self).index == old(self).index,
            final(self).current_src == old(self).current_src,
            final(self).image_size == old(self).image_size,
    {
        let ghost before = self.files@;
        if self.randomize {
            shuffle_paths(&mut self.files);
        } else {
            let mut files: Vec<PathSortable> = Vec::new();
            std::mem::swap(&mut files, &mut self.files);
            self.files = sort_paths(files);
        }
        proof {
            vstd::seq_lib::to_multiset_len(before);
            vstd::seq_lib::to_multiset_len(self.files@);
        }
    }

    /// Opens a directory from its listing: keeps the images (regular files, not hidden,
    /// with an image extension in any case), puts them in order for the mode and shows the
    /// first. Without any image the state stays as it was.
    pub fn load_entries(&mut self, entries: &Vec<DirEntry>) -> (r: Result<(), LoadError>)
        requires
            old(self).wf(),
        ensures
            final(self).wf(),
            r is Ok <==> image_files(entries@).len() > 0,
            r is Err ==> (r matches Err(LoadError::EmptyDirectory)) && *final(self) == *old(self),
            r is Ok ==> {
                &&& final(self).paths().to_multiset() == image_files(entries@).to_multiset()
                &&& !old(self).shuffled() ==> is_sorted(final(self).paths())
                &&& final(self).position() == 0
                &&& final(self).shuffled() == old(self).shuffled()
                &&& final(self).size() == seq![0usize, 0usize]
            },
    {
        let mut found = filter_images(entries);
        if found.len() == 0 {
            return Err(LoadError::EmptyDirectory);
        }
        std::mem::swap(&mut found, &mut self.files);
        self.arrange();
        self.index = 0;
        self.show_current();
        Ok(())
    }

    /// Shows one file alone, whatever its name.
    pub fn load_single_file(&mut self, path: String)
        ensures
            final(self).wf(),
            final(self).paths() == seq![PathSortable(path)],
            final(self).position() == 0,
            final(self).shuffled() == old(self).shuffled(),
            final(self).size() == seq![0usize, 0usize],
    {
        self.files = vec![PathSortable(path)];
        self.index = 0;
        self.show_current();
        assert(self.files@ =~= seq![PathSortable(path)]);
    }

    /// Switches between shuffled and path order, then finds the path that was on screen in
    /// the new order, so that the same file stays shown. Shuffling again when already
    /// shuffled draws a new order.
    pub fn set_randomize(&mut self, randomize: bool)
        requires
            old(self).wf(),
        ensures
            final(self).wf(),
            final(self).shuffled() == randomize,
            final(self).paths().to_multiset() == old(self).paths().to_multiset(),
            !randomize ==> is_sorted(final(self).paths()),
            old(self).paths().len() == 0 ==> {
                &&& final(self).paths() == old(self).paths()
                &&& final(self).source() == old(self).source()
                &&& final(self).size() == old(self).size()
            },
            old(self).paths().len() > 0 ==> {
                &&& final(self).shown() == old(self).shown()
                &&& final(self).source() == old(self).source()
                &&& final(self).size() == seq![0usize, 0usize]
            },
    {
        self.randomize = randomize;
        if self.files.len() == 0 {
            proof {
                reveal(is_sorted);
            }
            return;
        }
        let anchor = self.files[self.index].duplicate();
        let ghost before = self.files@;
        assert(before.contains(anchor));
        self.arrange();
        let ghost after = self.files@;
        proof {
            vstd::seq_lib::to_multiset_contains(before, anchor);
            vstd::seq_lib::to_multiset_contains(after, anchor);
        }
        assert(after.contains(anchor));
        let j = position_of(&self.files, &anchor);
        self.index = j;
        self.show_current();
    }
}

} // verus!
