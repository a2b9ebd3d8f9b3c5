use vstd::prelude::*;

verus! {

#[verifier::external_type_specification]
#[verifier::external_body]
pub struct ExPathBuf(std::path::PathBuf);

/// The well-known places where the application keeps its data.
pub enum DataPaths {
    Log,
    Setting,
    Keys,
    SelectedKey,
}

/// Which operating-system directory a data path lives under.
#[derive(PartialEq, Eq, Structural, Debug, Clone, Copy)]
pub enum BaseDir {
    DataLocal,
    ConfigLocal,
}

pub open spec fn data_path_segments(p: DataPaths) -> Seq<Seq<char>> {
    match p {
        DataPaths::Log => seq!["notedeck"@, "logs"@],
        DataPaths::Setting => seq!["notedeck"@, "settings"@],
        DataPaths::Keys => seq!["notedeck"@, "storage"@, "accounts"@],
        DataPaths::SelectedKey => seq!["notedeck"@, "storage"@, "selected_account"@],
    }
}

pub open spec fn strs_of(v: Seq<String>) -> Seq<Seq<char>> {
    v.map_values(|s: String| s@)
}

impl DataPaths {
    /// The directory this path lives under: logs under the local data
    /// directory, the rest under the local configuration directory.
    pub fn base_dir(&self) -> (r: BaseDir)
        ensures
            (r == BaseDir::DataLocal) == (*self is Log),
    {
        match self {
            DataPaths::Log => BaseDir::DataLocal,
            _ => BaseDir::ConfigLocal,
        }
    }

    /// The path components below the base directory.
    pub fn segments(&self) -> (r: Vec<String>)
        ensures
            strs_of(r@) == data_path_segments(*self),
    {
        let mut v: Vec<String> = Vec::new();
        v.push(String::from_str("notedeck"));
        match self {
            DataPaths::Log => {
                v.push(String::from_str("logs"));
            },
            DataPaths::Setting => {
                v.push(String::from_str("settings"));
            },
            DataPaths::Keys => {
                v.push(String::from_str("storage"));
                v.push(String::from_str("accounts"));
            },
            DataPaths::SelectedKey => {
                v.push(String::from_str("storage"));
                v.push(String::from_str("selected_account"));
            },
        }
        assert(strs_of(v@) =~= data_path_segments(*self));
        v
    }
}

/// A directory of files.
#[derive(Debug)]
pub struct Directory {
    pub file_path: std::path::PathBuf,
}

impl Directory {
    pub fn new(file_path: std::path::PathBuf) -> (r: Directory)
        ensures
            r.file_path == file_path,
    {
        Directory { file_path }
    }
}

/// The tail of a text file.
pub struct FileResult {
    pub output: String,
    pub output_num_lines: usize,
    pub total_lines_in_file: usize,
}

/// Lines joined with `\n` between them.
pub open spec fn joined(lines: Seq<Seq<char>>) -> Seq<char>
    decreases lines.len(),
{
    if lines.len() == 0 {
        seq![]
    } else if lines.len() == 1 {
        lines[0]
    } else {
        joined(lines.drop_last()) + seq!['\n'] + lines.last()
    }
}

/// The last `n` elements of `s` (all of them where there are fewer).
pub open spec fn last_n(s: Seq<Seq<char>>, n: nat) -> Seq<Seq<char>> {
    if s.len() <= n {
        s
    } else {
        s.subrange(s.len() - n, s.len() as int)
    }
}

/// Keeps the last `n` lines of a stream of lines, and counts them all.
pub struct LastLines {
    n: usize,
    queue: Vec<String>,
    total: usize,
    seen: Ghost<Seq<Seq<char>>>,
}

impl LastLines {
    pub closed spec fn wf(&self) -> bool {
        &&& strs_of(self.queue@) == last_n(self.seen@, self.n as nat)
        &&& self.total == self.seen@.len()
    }

    /// Every line pushed so far.
    pub closed spec fn lines(&self) -> Seq<Seq<char>> {
        self.seen@
    }

    pub closed spec fn limit(&self) -> nat {
        self.n as nat
    }

    pub fn new(n: usize) -> (r: LastLines)
        ensures
            r.wf(),
            r.lines().len() == 0,
            r.limit() == n,
    {
        let r = LastLines { n, queue: Vec::new(), total: 0, seen: Ghost(Seq::empty()) };
        assert(strs_of(r.queue@) =~= last_n(r.seen@, n as nat));
        r
    }

    /// Takes in the next line.
    pub fn push_line(&mut self, line: String)
        requires
            old(self).wf(),
            old(self).lines().len() < usize::MAX,
        ensures
            final(self).wf(),
            final(self).lines() == old(self).lines().push(line@),
            final(self).limit() == old(self).limit(),
    {
        let ghost s0 = self.seen@;
        let ghost l = line@;
        let ghost q0 = self.queue@;
        self.seen = Ghost(self.seen@.push(line@));
        self.queue.push(line);
        let ghost s1 = s0.push(l);
        assert(strs_of(self.queue@) =~= strs_of(q0).push(l));
        if self.queue.len() > self.n {
            let ghost q1 = self.queue@;
            self.queue.remove(0);
            assert(self.queue@ =~= q1.drop_first());
            assert(strs_of(self.queue@) =~= strs_of(q1).drop_first());
            assert(strs_of(self.queue@) =~= last_n(s1, self.n as nat));
        } else {
            assert(strs_of(self.queue@) =~= last_n(s1, self.n as nat));
        }
        self.total = self.total + 1;
    }

    /// The kept lines joined with `\n`, how many they are, and how many lines
    /// were pushed in all.
    pub fn finish(self) -> (r: FileResult)
        requires
            self.wf(),
        ensures
            r.output@ == joined(last_n(self.lines(), self.limit())),
            r.output_num_lines == last_n(self.lines(), self.limit()).len(),
            r.total_lines_in_file == self.lines().len(),
    {
        let mut out = String::new();
        let ghost q = strs_of(self.queue@);
        let mut i: usize = 0;
        let newline = "\n";
        proof {
            reveal_strlit("\n");
        }
        while i < self.queue.len()
            invariant
                0 <= i <= q.len(),
                q == strs_of(self.queue@),
                newline@ == seq!['\n'],
                out@ == joined(q.subrange(0, i as int)),
            decreases q.len() - i,
        {
            assert(q.subrange(0, i + 1).drop_last() =~= q.subrange(0, i as int));
            if i > 0 {
                out.append(newline);
            }
            out.append(self.queue[i].as_str());
            proof {
                if i == 0 {
                    assert(out@ =~= joined(q.subrange(0, 1)));
                }
            }
            i = i + 1;
        }
        assert(q.subrange(0, i as int) =~= q);
        FileResult { output: out, output_num_lines: self.queue.len(), total_lines_in_file: self.total }
    }
}

/// Position of the most recent of some modification times: the first of the
/// greatest; `None` where there are none.
pub fn most_recent_index(times: &Vec<i128>) -> (r: Option<usize>)
    ensures
        r is None <==> times@.len() == 0,
        r matches Some(i) ==> i < times@.len() && (forall|j: int| 0 <= j < times@.len() ==> times@[j]
            <= times@[i as int]) && (forall|j: int| 0 <= j < i ==> times@[j] < times@[i as int]),
{
    if times.len() == 0 {
        return None;
    }
    let mut best: usize = 0;
    let mut k: usize = 1;
    while k < times.len()
        invariant
            1 <= k <= times@.len(),
            best < k,
            forall|j: int| 0 <= j < k ==> times@[j] <= times@[best as int],
            forall|j: int| 0 <= j < best ==> times@[j] < times@[best as int],
        decreases times@.len() - k,
    {
        if times[k] > times[best] {
            best = k;
        }
        k = k + 1;
    }
    Some(best)
}

} // verus!
