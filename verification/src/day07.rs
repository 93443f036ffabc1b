//! Directory-tree sizes from a terminal transcript: the tree model, its
//! recursive sizes, the total of the small directories, and the transcript
//! parser.

use vstd::prelude::*;
use crate::parse::parse_u64_range;
use vstd::string::StringSliceAdditionalSpecFns;

verus! {

/// A plain file with its size.
pub struct File {
    pub size: usize,
    pub name: String,
}

/// A directory tree node.
pub struct Directory {
    pub name: String,
    pub files: Vec<File>,
    pub subdirs: Vec<Directory>,
}

/// Total size of a list of files.
pub open spec fn files_sum(s: Seq<File>) -> nat
    decreases s.len(),
{
    if s.len() == 0 {
        0
    } else {
        (files_sum(s.drop_last()) + s.last().size) as nat
    }
}

/// Total size of a directory: its files plus everything below.
pub open spec fn dir_size(d: Directory) -> nat
    decreases d,
{
    (subdirs_sum(d.subdirs@) + files_sum(d.files@)) as nat
}

/// Total size of a list of directories.
pub open spec fn subdirs_sum(s: Seq<Directory>) -> nat
    decreases s,
{
    if s.len() == 0 {
        0
    } else {
        (subdirs_sum(s.drop_last()) + dir_size(s.last())) as nat
    }
}

/// Sum of the sizes of all directories in the tree whose total size is at
/// most 100000.
pub open spec fn small_sum(d: Directory) -> nat
    decreases d,
{
    (small_subs(d.subdirs@) + (if dir_size(d) <= 100000 {
        dir_size(d)
    } else {
        0
    })) as nat
}

/// The same sum over a list of directories.
pub open spec fn small_subs(s: Seq<Directory>) -> nat
    decreases s,
{
    if s.len() == 0 {
        0
    } else {
        (small_subs(s.drop_last()) + small_sum(s.last())) as nat
    }
}

proof fn lemma_files_sum_prefix(s: Seq<File>, n: int)
    requires
        0 <= n <= s.len(),
    ensures
        files_sum(s.subrange(0, n)) <= files_sum(s),
    decreases s.len() - n,
{
    if n < s.len() {
        lemma_files_sum_prefix(s, n + 1);
        assert(s.subrange(0, n + 1).drop_last() =~= s.subrange(0, n));
    } else {
        assert(s.subrange(0, n) =~= s);
    }
}

proof fn lemma_subdirs_sum_prefix(s: Seq<Directory>, n: int)
    requires
        0 <= n <= s.len(),
    ensures
        subdirs_sum(s.subrange(0, n)) <= subdirs_sum(s),
    decreases s.len() - n,
{
    if n < s.len() {
        lemma_subdirs_sum_prefix(s, n + 1);
        assert(s.subrange(0, n + 1).drop_last() =~= s.subrange(0, n));
    } else {
        assert(s.subrange(0, n) =~= s);
    }
}

proof fn lemma_small_subs_prefix(s: Seq<Directory>, n: int)
    requires
        0 <= n <= s.len(),
    ensures
        small_subs(s.subrange(0, n)) <= small_subs(s),
    decreases s.len() - n,
{
    if n < s.len() {
        lemma_small_subs_prefix(s, n + 1);
        assert(s.subrange(0, n + 1).drop_last() =~= s.subrange(0, n));
    } else {
        assert(s.subrange(0, n) =~= s);
    }
}

impl Directory {
    /// The summed size of this directory's own files.
    pub fn files_size(&self) -> (r: usize)
        requires
            files_sum(self.files@) <= usize::MAX,
        ensures
            r == files_sum(self.files@),
    {
        let mut total: usize = 0;
        let mut i: usize = 0;
        while i < self.files.len()
            invariant
                i <= self.files@.len(),
                total == files_sum(self.files@.subrange(0, i as int)),
                files_sum(self.files@) <= usize::MAX,
            decreases self.files@.len() - i,
        {
            proof {
                lemma_files_sum_prefix(self.files@, i + 1);
                assert(self.files@.subrange(0, i + 1).drop_last() =~= self.files@.subrange(
                    0,
                    i as int,
                ));
                assert(self.files@.subrange(0, i + 1).last() == self.files@[i as int]);
            }
            total = total + self.files[i].size;
            i = i + 1;
        }
        proof {
            assert(self.files@.subrange(0, self.files@.len() as int) =~= self.files@);
        }
        total
    }
}

/// Walk the tree, adding the total size of every directory of size at most
/// 100000 into `result`; returns this directory's own total size.
pub fn accumulate_total_size_of_small_directories(result: &mut usize, dir: &Directory) -> (r:
    usize)
    requires
        dir_size(*dir) <= usize::MAX,
        *old(result) + small_sum(*dir) <= usize::MAX,
    ensures
        r == dir_size(*dir),
        *final(result) == *old(result) + small_sum(*dir),
    decreases *dir,
{
    let mut this_dir_size: usize = 0;
    let mut i: usize = 0;
    while i < dir.subdirs.len()
        invariant
            i <= dir.subdirs@.len(),
            dir_size(*dir) <= usize::MAX,
            *old(result) + small_sum(*dir) <= usize::MAX,
            this_dir_size == subdirs_sum(dir.subdirs@.subrange(0, i as int)),
            *result == *old(result) + small_subs(dir.subdirs@.subrange(0, i as int)),
        decreases dir.subdirs@.len() - i,
    {
        proof {
            lemma_subdirs_sum_prefix(dir.subdirs@, i + 1);
            lemma_small_subs_prefix(dir.subdirs@, i + 1);
            assert(dir.subdirs@.subrange(0, i + 1).drop_last() =~= dir.subdirs@.subrange(
                0,
                i as int,
            ));
            assert(dir.subdirs@.subrange(0, i + 1).last() == dir.subdirs@[i as int]);
        }
        let sub = accumulate_total_size_of_small_directories(result, &dir.subdirs[i]);
        this_dir_size = this_dir_size + sub;
        i = i + 1;
    }
    proof {
        assert(dir.subdirs@.subrange(0, dir.subdirs@.len() as int) =~= dir.subdirs@);
    }
    this_dir_size = this_dir_size + dir.files_size();
    if this_dir_size <= 100000 {
        *result = *result + this_dir_size;
    }
    this_dir_size
}

/// The sizes of all directories in the tree, subdirectories first, ending
/// with the tree's own total size.
pub open spec fn sizes_list(d: Directory) -> Seq<int>
    decreases d,
{
    subs_sizes(d.subdirs@).push(dir_size(d) as int)
}

/// The concatenated size lists of a list of directories.
pub open spec fn subs_sizes(s: Seq<Directory>) -> Seq<int>
    decreases s,
{
    if s.len() == 0 {
        Seq::empty()
    } else {
        subs_sizes(s.drop_last()) + sizes_list(s.last())
    }
}

/// Walk the tree, appending every directory's total size to `result`;
/// returns this directory's own total size.
pub fn get_sizes_of_dirs(result: &mut Vec<usize>, dir: &Directory) -> (r: usize)
    requires
        dir_size(*dir) <= usize::MAX,
    ensures
        r == dir_size(*dir),
        final(result)@.map_values(|x: usize| x as int) =~= old(result)@.map_values(
            |x: usize| x as int,
        ) + sizes_list(*dir),
    decreases *dir,
{
    let mut this_dir_size: usize = 0;
    let mut i: usize = 0;
    while i < dir.subdirs.len()
        invariant
            i <= dir.subdirs@.len(),
            dir_size(*dir) <= usize::MAX,
            this_dir_size == subdirs_sum(dir.subdirs@.subrange(0, i as int)),
            result@.map_values(|x: usize| x as int) =~= old(result)@.map_values(|x: usize| x as int)
                + subs_sizes(dir.subdirs@.subrange(0, i as int)),
        decreases dir.subdirs@.len() - i,
    {
        proof {
            lemma_subdirs_sum_prefix(dir.subdirs@, i + 1);
            assert(dir.subdirs@.subrange(0, i + 1).drop_last() =~= dir.subdirs@.subrange(
                0,
                i as int,
            ));
            assert(dir.subdirs@.subrange(0, i + 1).last() == dir.subdirs@[i as int]);
        }
        let sub = get_sizes_of_dirs(result, &dir.subdirs[i]);
        this_dir_size = this_dir_size + sub;
        i = i + 1;
    }
    proof {
        assert(dir.subdirs@.subrange(0, dir.subdirs@.len() as int) =~= dir.subdirs@);
    }
    this_dir_size = this_dir_size + dir.files_size();
    result.push(this_dir_size);
    proof {
        assert(result@.map_values(|x: usize| x as int) =~= old(result)@.map_values(
            |x: usize| x as int,
        ) + subs_sizes(dir.subdirs@) + seq![dir_size(*dir) as int]);
        assert(old(result)@.map_values(|x: usize| x as int) + subs_sizes(dir.subdirs@) + seq![
            dir_size(*dir) as int,
        ] =~= old(result)@.map_values(|x: usize| x as int) + sizes_list(*dir));
    }
    this_dir_size
}

/// The line is `$ cd ` followed by a name without spaces.
pub open spec fn cd_shape(t: Seq<char>) -> bool {
    &&& t.len() > 5
    &&& t[0] == '$' && t[1] == ' ' && t[2] == 'c' && t[3] == 'd' && t[4] == ' '
    &&& forall|i: int| 5 <= i < t.len() ==> t[i] != ' '
}

/// The directory name of a `$ cd name` line.
pub fn parse_dirname_from_cd(s: &str) -> (r: String)
    requires
        cd_shape(s@),
    ensures
        r@ == s@.skip(5),
{
    let n = s.unicode_len();
    s.substring_char(5, n).to_owned()
}

/// `$ cd name` recognizer that also hands back the name; total, so the
/// transcript parser can probe any line.
fn try_parse_cd(s: &str) -> (r: Option<String>)
    ensures
        match r {
            Some(name) => cd_shape(s@) && name@ == s@.skip(5),
            None => !cd_shape(s@),
        },
{
    let n = s.unicode_len();
    if n <= 5 {
        return None;
    }
    if !(s.get_char(0) == '$' && s.get_char(1) == ' ' && s.get_char(2) == 'c' && s.get_char(3)
        == 'd' && s.get_char(4) == ' ') {
        return None;
    }
    let mut i: usize = 5;
    while i < n
        invariant
            5 <= i <= n,
            n == s@.len(),
            forall|j: int| 5 <= j < i ==> s@[j] != ' ',
        decreases n - i,
    {
        if s.get_char(i) == ' ' {
            return None;
        }
        i = i + 1;
    }
    Some(s.substring_char(5, n).to_owned())
}

/// The line starts with `$ ` (a command follows).
fn is_command(s: &str) -> (r: bool)
    ensures
        r == (s@.len() >= 2 && s@[0] == '$' && s@[1] == ' '),
{
    s.unicode_len() >= 2 && s.get_char(0) == '$' && s.get_char(1) == ' '
}

/// The line is exactly `$ cd ..`.
fn is_cd_up(s: &str) -> (r: bool)
    ensures
        r == (s@ =~= seq!['$', ' ', 'c', 'd', ' ', '.', '.']),
{
    let n = s.unicode_len();
    if n != 7 {
        proof {
            if s@ =~= seq!['$', ' ', 'c', 'd', ' ', '.', '.'] {
                assert(s@.len() == 7);
            }
        }
        return false;
    }
    let r = s.get_char(0) == '$' && s.get_char(1) == ' ' && s.get_char(2) == 'c' && s.get_char(3)
        == 'd' && s.get_char(4) == ' ' && s.get_char(5) == '.' && s.get_char(6) == '.';
    proof {
        if r {
            assert(s@ =~= seq!['$', ' ', 'c', 'd', ' ', '.', '.']);
        }
    }
    r
}

/// Parse one directory listing from the transcript, starting at the `ls`
/// line at `*pos`: file entries fill `files`, nested `$ cd name` blocks are
/// parsed recursively, and `$ cd ..` closes the directory.  Entries that do
/// not look like a file or a command are skipped.  Always consumes at least
/// one line.
pub fn parse_dir(dir_name: String, lines: &Vec<String>, pos: &mut usize) -> (r: Directory)
    requires
        *old(pos) < lines@.len(),
    ensures
        *old(pos) < *final(pos) <= lines@.len(),
    decreases lines@.len() - *old(pos),
{
    let mut files: Vec<File> = Vec::new();
    let mut subdirs: Vec<Directory> = Vec::new();
    let n = lines.len();
    assert(*pos < n);
    // skip the `$ ls` line
    *pos = *pos + 1;
    while *pos < lines.len() && !is_command(lines[*pos].as_str())
        invariant
            *old(pos) < *pos <= lines@.len(),
        decreases lines@.len() - *pos,
    {
        let line = lines[*pos].as_str();
        let bytes = line.as_bytes();
        let sp = crate::parse::find_byte(bytes, 0, 32);
        match sp {
            Some(k) => {
                match parse_u64_range(bytes, 0, k) {
                    Some(size) => {
                        if size <= usize::MAX as u64 {
                            let name = rest_after(line, k);
                            files.push(File { size: size as usize, name });
                        }
                    },
                    None => {
                        // a `dir name` entry or something unrecognized
                    },
                }
            },
            None => {},
        }
        *pos = *pos + 1;
    }
    while *pos < lines.len()
        invariant
            *old(pos) < *pos <= lines@.len(),
        decreases lines@.len() - *pos,
    {
        let line = lines[*pos].as_str();
        if is_cd_up(line) {
            *pos = *pos + 1;
            break ;
        }
        match try_parse_cd(line) {
            Some(subdir_name) => {
                *pos = *pos + 1;
                if *pos < lines.len() {
                    let sub = parse_dir(subdir_name, lines, pos);
                    subdirs.push(sub);
                } else {
                    subdirs.push(
                        Directory { name: subdir_name, files: Vec::new(), subdirs: Vec::new() },
                    );
                }
            },
            None => {
                // not a cd command: stop this directory's block
                break ;
            },
        }
    }
    Directory { name: dir_name, files, subdirs }
}

/// Relies on `str::get` by byte range and `str::to_string`: the owned copy
/// of everything after byte position `k`, or the empty string when position
/// `k + 1` does not start a character.
#[verifier::external_body]
fn rest_after(s: &str, k: usize) -> (r: String)
    requires
        k < s.spec_bytes().len(),
    ensures
        vstd::utf8::encode_utf8(r@) == s.spec_bytes().subrange(
            k + 1,
            s.spec_bytes().len() as int,
        ) || r@.len() == 0,
{
    match s.get(k + 1..) {
        Some(w) => w.to_string(),
        None => String::new(),
    }
}

} // verus!
