//! The model registry: declarative [`ModelSpec`]s and a small built-in
//! catalog of known-good models. Adding a model is a manifest entry here, not
//! new code.

use crate::text::{
    chars_of, contains_text, debug_text, ends_with_text, occurs_at, occurs_in, push_debug,
    same_text, starts_with_text,
};
use vstd::prelude::*;

verus! {

/// Which implementation loads a checkpoint.
#[derive(Debug, Clone, Copy, PartialEq, Eq, Structural)]
pub enum Architecture {
    /// Qwen2 and Qwen2.5 decoder tiers.
    Qwen2,
    /// Qwen3 dense decoder.
    Qwen3,
    /// LFM2 and LFM2.5 hybrid conv and attention.
    Lfm2,
    /// all-MiniLM sentence embedder.
    MiniLm,
    /// OLMoE sparse mixture-of-experts decoder.
    Olmoe,
}

/// How the checkpoint's weights are stored.
#[derive(Debug, Clone, Default, PartialEq, Eq)]
pub enum WeightFormat {
    /// Configuration, tokenizer and safetensors files.
    #[default]
    Safetensors,
    /// One self-contained file in the repository.
    Gguf {
        /// The file name inside the repository.
        file: String,
    },
}

/// A declarative model manifest entry.
#[derive(Debug, Clone)]
pub struct ModelSpec {
    /// Short name, safe as a cache directory.
    pub name: String,
    /// Repository id (`owner/name`).
    pub repo: String,
    /// Revision (tag, branch or commit).
    pub revision: String,
    pub architecture: Architecture,
    pub format: WeightFormat,
    /// Rough on-disk size (0 = unknown).
    pub disk_bytes_estimate: u64,
}

/// A manifest entry by content.
#[verifier::ext_equal]
pub struct SpecModel {
    pub name: Seq<char>,
    pub repo: Seq<char>,
    pub revision: Seq<char>,
    pub architecture: Architecture,
    /// The file name of a single-file checkpoint.
    pub file: Option<Seq<char>>,
    pub disk_bytes_estimate: u64,
}

impl View for ModelSpec {
    type V = SpecModel;

    open spec fn view(&self) -> SpecModel {
        SpecModel {
            name: self.name@,
            repo: self.repo@,
            revision: self.revision@,
            architecture: self.architecture,
            file: match self.format {
                WeightFormat::Safetensors => None,
                WeightFormat::Gguf { file } => Some(file@),
            },
            disk_bytes_estimate: self.disk_bytes_estimate,
        }
    }
}

/// May the character stand in a name?
pub open spec fn name_char(c: char) -> bool {
    ||| 'a' <= c && c <= 'z'
    ||| 'A' <= c && c <= 'Z'
    ||| '0' <= c && c <= '9'
    ||| c == '-'
    ||| c == '_'
    ||| c == '.'
}

/// May the first `n` characters stand in a name?
pub open spec fn name_chars(s: Seq<char>, n: nat) -> bool
    decreases n,
{
    n == 0 || (name_chars(s, (n - 1) as nat) && name_char(s[n - 1]))
}

/// Is the name safe as the name of a directory? The two names that stand for
/// a directory and for the one above it are not.
pub open spec fn safe_name(name: Seq<char>) -> bool {
    &&& name.len() > 0
    &&& name_chars(name, name.len())
    &&& name != "."@
    &&& name != ".."@
}

/// Is the file name safe to join to a directory?
pub open spec fn safe_file(file: Seq<char>) -> bool {
    &&& file.len() > 0
    &&& !occurs_in(file, ".."@)
    &&& !occurs_at(file, "/"@, 0)
    &&& occurs_at(file, ".gguf"@, file.len() - 5)
}

/// Why a manifest entry is refused.
pub open spec fn refusal(m: SpecModel) -> Option<Seq<char>> {
    if !safe_name(m.name) {
        Some("bad spec name "@ + debug_text(m.name))
    } else if !occurs_in(m.repo, "/"@) {
        Some("repo must be owner/name, got "@ + debug_text(m.repo))
    } else if m.revision.len() == 0 {
        Some("revision must be non-empty (pin something)"@)
    } else {
        match m.file {
            Some(file) => if safe_file(file) {
                None
            } else {
                Some("bad gguf file name "@ + debug_text(file))
            },
            None => None,
        }
    }
}

/// The path of `name` under `root`: an absolute name stands for itself.
pub open spec fn path_under(root: Seq<char>, name: Seq<char>) -> Seq<char> {
    if root.len() == 0 || (name.len() > 0 && name[0] == '/') {
        name
    } else if root.last() == '/' {
        root + name
    } else {
        root + "/"@ + name
    }
}

/// The path of `name` under `root`.
fn join_path(root: &str, name: &str) -> (r: String)
    ensures
        r@ == path_under(root@, name@),
{
    let r: Vec<char> = chars_of(root);
    let n: Vec<char> = chars_of(name);
    if r.len() == 0 || (n.len() > 0 && n[0] == '/') {
        return name.to_owned();
    }
    let mut out: String = root.to_owned();
    if r[r.len() - 1] != '/' {
        out.append("/");
    }
    out.append(name);
    out
}

/// What fetching a model comes to.
#[derive(Debug)]
pub enum Fetch {
    /// Every file of the model, into `dir`.
    Model { repo: String, revision: String, dir: String },
    /// One file, to `path` in `dir`.
    File { repo: String, revision: String, file: String, dir: String, path: String },
}

impl ModelSpec {
    /// Sanity for manifest entries.
    pub fn validate(&self) -> (r: Result<(), String>)
        ensures
            match r {
                Ok(_) => refusal(self@) is None,
                Err(e) => refusal(self@) == Some(e@),
            },
    {
        let name: Vec<char> = chars_of(self.name.as_str());
        let mut ok: bool = name.len() > 0;
        let mut i: usize = 0;
        while i < name.len()
            invariant
                i <= name@.len(),
                name@ == self.name@,
                ok == (name@.len() > 0 && name_chars(name@, i as nat)),
            decreases name@.len() - i,
        {
            let c: char = name[i];
            let fine: bool = ('a' <= c && c <= 'z') || ('A' <= c && c <= 'Z') || ('0' <= c && c
                <= '9') || c == '-' || c == '_' || c == '.';
            ok = ok && fine;
            i += 1;
        }
        if !ok || same_text(self.name.as_str(), ".") || same_text(self.name.as_str(), "..") {
            let mut m: String = String::new();
            m.append("bad spec name ");
            push_debug(&mut m, self.name.as_str());
            return Err(m);
        }
        if !contains_text(self.repo.as_str(), "/") {
            let mut m: String = String::new();
            m.append("repo must be owner/name, got ");
            push_debug(&mut m, self.repo.as_str());
            return Err(m);
        }
        if chars_of(self.revision.as_str()).len() == 0 {
            return Err("revision must be non-empty (pin something)".to_owned());
        }
        match &self.format {
            WeightFormat::Safetensors => {},
            WeightFormat::Gguf { file } => {
                proof {
                    reveal_strlit(".gguf");
                    assert(".gguf"@.len() == 5);
                }
                let safe: bool = chars_of(file.as_str()).len() > 0 && !contains_text(
                    file.as_str(),
                    "..",
                ) && !starts_with_text(file.as_str(), "/") && ends_with_text(
                    file.as_str(),
                    ".gguf",
                );
                if !safe {
                    let mut m: String = String::new();
                    m.append("bad gguf file name ");
                    push_debug(&mut m, file.as_str());
                    return Err(m);
                }
            },
        }
        Ok(())
    }

    /// The cache directory this model lives in under `models_root`.
    pub fn dir(&self, models_root: &str) -> (r: String)
        ensures
            r@ == path_under(models_root@, self.name@),
    {
        join_path(models_root, self.name.as_str())
    }

    /// For a single-file checkpoint: the local path of the file.
    pub fn gguf_path(&self, models_root: &str) -> (r: Option<String>)
        ensures
            match (self@.file, r) {
                (None, None) => true,
                (Some(file), Some(p)) => p@ == path_under(
                    path_under(models_root@, self.name@),
                    file,
                ),
                _ => false,
            },
    {
        match &self.format {
            WeightFormat::Gguf { file } => {
                let dir: String = self.dir(models_root);
                Some(join_path(dir.as_str(), file.as_str()))
            },
            WeightFormat::Safetensors => None,
        }
    }

    /// What is to be fetched, and where to.
    pub fn fetch(&self, models_root: &str) -> (r: Fetch)
        requires
            refusal(self@) is None,
        ensures
            match (self@.file, r) {
                (None, Fetch::Model { repo, revision, dir }) => repo@ == self.repo@ && revision@
                    == self.revision@ && dir@ == path_under(models_root@, self.name@),
                (Some(f), Fetch::File { repo, revision, file, dir, path }) => repo@ == self.repo@
                    && revision@ == self.revision@ && file@ == f && dir@ == path_under(
                    models_root@,
                    self.name@,
                ) && path@ == path_under(dir@, f),
                _ => false,
            },
    {
        let dir: String = self.dir(models_root);
        match &self.format {
            WeightFormat::Safetensors => Fetch::Model {
                repo: self.repo.clone(),
                revision: self.revision.clone(),
                dir,
            },
            WeightFormat::Gguf { file } => {
                let path: String = join_path(dir.as_str(), file.as_str());
                Fetch::File {
                    repo: self.repo.clone(),
                    revision: self.revision.clone(),
                    file: file.clone(),
                    dir,
                    path,
                }
            },
        }
    }
}

/// An entry stored as safetensors files.
pub open spec fn tensors_entry(
    name: Seq<char>,
    repo: Seq<char>,
    architecture: Architecture,
    bytes: u64,
) -> SpecModel {
    SpecModel {
        name,
        repo,
        revision: "main"@,
        architecture,
        file: None,
        disk_bytes_estimate: bytes,
    }
}

/// An entry stored as one file.
pub open spec fn gguf_entry(
    name: Seq<char>,
    repo: Seq<char>,
    architecture: Architecture,
    file: Seq<char>,
    bytes: u64,
) -> SpecModel {
    SpecModel {
        name,
        repo,
        revision: "main"@,
        architecture,
        file: Some(file),
        disk_bytes_estimate: bytes,
    }
}

/// Entry `i` of the built-in catalog.
pub open spec fn catalog_entry(i: int) -> SpecModel {
    if i == 0 {
        tensors_entry(
            "qwen2.5-1.5b-instruct"@,
            "Qwen/Qwen2.5-1.5B-Instruct"@,
            Architecture::Qwen2,
            3_100_000_000,
        )
    } else if i == 1 {
        tensors_entry(
            "qwen2.5-0.5b-instruct"@,
            "Qwen/Qwen2.5-0.5B-Instruct"@,
            Architecture::Qwen2,
            1_000_000_000,
        )
    } else if i == 2 {
        tensors_entry(
            "lfm2.5-1.2b"@,
            "LiquidAI/LFM2.5-1.2B-Instruct"@,
            Architecture::Lfm2,
            2_400_000_000,
        )
    } else if i == 3 {
        tensors_entry(
            "lfm2.5-230m"@,
            "LiquidAI/LFM2.5-230M"@,
            Architecture::Lfm2,
            500_000_000,
        )
    } else if i == 4 {
        tensors_entry(
            "all-minilm-l6-v2"@,
            "sentence-transformers/all-MiniLM-L6-v2"@,
            Architecture::MiniLm,
            91_000_000,
        )
    } else if i == 5 {
        gguf_entry(
            "qwen2.5-1.5b-instruct-q4km"@,
            "Qwen/Qwen2.5-1.5B-Instruct-GGUF"@,
            Architecture::Qwen2,
            "qwen2.5-1.5b-instruct-q4_k_m.gguf"@,
            1_120_000_000,
        )
    } else if i == 6 {
        gguf_entry(
            "lfm2.5-1.2b-q4km"@,
            "LiquidAI/LFM2.5-1.2B-Instruct-GGUF"@,
            Architecture::Lfm2,
            "LFM2.5-1.2B-Instruct-Q4_K_M.gguf"@,
            731_000_000,
        )
    } else if i == 7 {
        tensors_entry(
            "qwen3-0.6b"@,
            "Qwen/Qwen3-0.6B"@,
            Architecture::Qwen3,
            1_500_000_000,
        )
    } else if i == 8 {
        gguf_entry(
            "qwen3-0.6b-q4km"@,
            "unsloth/Qwen3-0.6B-GGUF"@,
            Architecture::Qwen3,
            "Qwen3-0.6B-Q4_K_M.gguf"@,
            484_000_000,
        )
    } else if i == 9 {
        tensors_entry(
            "qwen3-4b"@,
            "Qwen/Qwen3-4B"@,
            Architecture::Qwen3,
            8_100_000_000,
        )
    } else if i == 10 {
        gguf_entry(
            "qwen3-4b-q4km"@,
            "Qwen/Qwen3-4B-GGUF"@,
            Architecture::Qwen3,
            "Qwen3-4B-Q4_K_M.gguf"@,
            2_500_000_000,
        )
    } else if i == 11 {
        gguf_entry(
            "olmoe-1b-7b-0125-instruct-q4km"@,
            "allenai/OLMoE-1B-7B-0125-Instruct-GGUF"@,
            Architecture::Olmoe,
            "OLMoE-1B-7B-0125-Instruct-Q4_K_M.gguf"@,
            4_210_000_000,
        )
    } else {
        tensors_entry(
            "olmoe-1b-7b-0125-instruct"@,
            "allenai/OLMoE-1B-7B-0125-Instruct"@,
            Architecture::Olmoe,
            13_800_000_000,
        )
    }
}

/// Entries of the built-in catalog.
pub const CATALOG_LEN: usize = 13;

/// An entry stored as safetensors files.
fn tensors_spec(name: &str, repo: &str, architecture: Architecture, bytes: u64) -> (r: ModelSpec)
    ensures
        r@ == tensors_entry(name@, repo@, architecture, bytes),
{
    ModelSpec {
        name: name.to_owned(),
        repo: repo.to_owned(),
        revision: "main".to_owned(),
        architecture,
        format: WeightFormat::Safetensors,
        disk_bytes_estimate: bytes,
    }
}

/// An entry stored as one file.
fn gguf_spec(
    name: &str,
    repo: &str,
    architecture: Architecture,
    file: &str,
    bytes: u64,
) -> (r: ModelSpec)
    ensures
        r@ == gguf_entry(name@, repo@, architecture, file@, bytes),
{
    ModelSpec {
        name: name.to_owned(),
        repo: repo.to_owned(),
        revision: "main".to_owned(),
        architecture,
        format: WeightFormat::Gguf { file: file.to_owned() },
        disk_bytes_estimate: bytes,
    }
}

/// The built-in catalog.
pub fn catalog() -> (r: Vec<ModelSpec>)
    ensures
        r@.len() == CATALOG_LEN,
        forall|i: int| 0 <= i < CATALOG_LEN ==> (#[trigger] r@[i])@ == catalog_entry(i),
{
    let mut v: Vec<ModelSpec> = Vec::new();
    v.push(
        tensors_spec("qwen2.5-1.5b-instruct", "Qwen/Qwen2.5-1.5B-Instruct", Architecture::Qwen2, 3_100_000_000),
    );
    v.push(
        tensors_spec("qwen2.5-0.5b-instruct", "Qwen/Qwen2.5-0.5B-Instruct", Architecture::Qwen2, 1_000_000_000),
    );
    v.push(
        tensors_spec("lfm2.5-1.2b", "LiquidAI/LFM2.5-1.2B-Instruct", Architecture::Lfm2, 2_400_000_000),
    );
    v.push(
        tensors_spec("lfm2.5-230m", "LiquidAI/LFM2.5-230M", Architecture::Lfm2, 500_000_000),
    );
    v.push(
        tensors_spec("all-minilm-l6-v2", "sentence-transformers/all-MiniLM-L6-v2", Architecture::MiniLm, 91_000_000),
    );
    v.push(
        gguf_spec(
            "qwen2.5-1.5b-instruct-q4km",
            "Qwen/Qwen2.5-1.5B-Instruct-GGUF",
            Architecture::Qwen2,
            "qwen2.5-1.5b-instruct-q4_k_m.gguf",
            1_120_000_000,
        ),
    );
    v.push(
        gguf_spec(
            "lfm2.5-1.2b-q4km",
            "LiquidAI/LFM2.5-1.2B-Instruct-GGUF",
            Architecture::Lfm2,
            "LFM2.5-1.2B-Instruct-Q4_K_M.gguf",
            731_000_000,
        ),
    );
    v.push(
        tensors_spec("qwen3-0.6b", "Qwen/Qwen3-0.6B", Architecture::Qwen3, 1_500_000_000),
    );
    v.push(
        gguf_spec(
            "qwen3-0.6b-q4km",
            "unsloth/Qwen3-0.6B-GGUF",
            Architecture::Qwen3,
            "Qwen3-0.6B-Q4_K_M.gguf",
            484_000_000,
        ),
    );
    v.push(
        tensors_spec("qwen3-4b", "Qwen/Qwen3-4B", Architecture::Qwen3, 8_100_000_000),
    );
    v.push(
        gguf_spec(
            "qwen3-4b-q4km",
            "Qwen/Qwen3-4B-GGUF",
            Architecture::Qwen3,
            "Qwen3-4B-Q4_K_M.gguf",
            2_500_000_000,
        ),
    );
    v.push(
        gguf_spec(
            "olmoe-1b-7b-0125-instruct-q4km",
            "allenai/OLMoE-1B-7B-0125-Instruct-GGUF",
            Architecture::Olmoe,
            "OLMoE-1B-7B-0125-Instruct-Q4_K_M.gguf",
            4_210_000_000,
        ),
    );
    v.push(
        tensors_spec("olmoe-1b-7b-0125-instruct", "allenai/OLMoE-1B-7B-0125-Instruct", Architecture::Olmoe, 13_800_000_000),
    );
    v
}

/// No two entries of the catalog share a name.
pub proof fn catalog_names_are_unique(i: int, j: int)
    requires
        0 <= i < j < CATALOG_LEN,
    ensures
        catalog_entry(i).name != catalog_entry(j).name,
{
    reveal_strlit("qwen2.5-1.5b-instruct");
    reveal_strlit("qwen2.5-0.5b-instruct");
    reveal_strlit("lfm2.5-1.2b");
    reveal_strlit("lfm2.5-230m");
    reveal_strlit("all-minilm-l6-v2");
    reveal_strlit("qwen2.5-1.5b-instruct-q4km");
    reveal_strlit("lfm2.5-1.2b-q4km");
    reveal_strlit("qwen3-0.6b");
    reveal_strlit("qwen3-0.6b-q4km");
    reveal_strlit("qwen3-4b");
    reveal_strlit("qwen3-4b-q4km");
    reveal_strlit("olmoe-1b-7b-0125-instruct-q4km");
    reveal_strlit("olmoe-1b-7b-0125-instruct");
    assert("qwen2.5-1.5b-instruct"@.len() == 21);
    assert("qwen2.5-0.5b-instruct"@.len() == 21);
    assert("lfm2.5-1.2b"@.len() == 11);
    assert("lfm2.5-230m"@.len() == 11);
    assert("all-minilm-l6-v2"@.len() == 16);
    assert("qwen2.5-1.5b-instruct-q4km"@.len() == 26);
    assert("lfm2.5-1.2b-q4km"@.len() == 16);
    assert("qwen3-0.6b"@.len() == 10);
    assert("qwen3-0.6b-q4km"@.len() == 15);
    assert("qwen3-4b"@.len() == 8);
    assert("qwen3-4b-q4km"@.len() == 13);
    assert("olmoe-1b-7b-0125-instruct-q4km"@.len() == 30);
    assert("olmoe-1b-7b-0125-instruct"@.len() == 25);
    assert("qwen2.5-1.5b-instruct"@[8] != "qwen2.5-0.5b-instruct"@[8]);
    assert("lfm2.5-1.2b"@[7] != "lfm2.5-230m"@[7]);
    assert("all-minilm-l6-v2"@[0] != "lfm2.5-1.2b-q4km"@[0]);
}

/// Is there a pair of dots among the first `n` characters?
spec fn dots_upto(s: Seq<char>, n: nat) -> bool
    decreases n,
{
    n >= 2 && ((s[n - 1] == '.' && s[n - 2] == '.') || dots_upto(s, (n - 1) as nat))
}

/// A pair of dots is found where it stands.
proof fn lemma_dots(s: Seq<char>, n: nat)
    requires
        n <= s.len(),
        !dots_upto(s, n),
    ensures
        forall|at: int| 0 <= at && at + 2 <= n ==> !(#[trigger] s[at] == '.' && s[at + 1] == '.'),
    decreases n,
{
    if n >= 2 {
        lemma_dots(s, (n - 1) as nat);
        assert forall|at: int| 0 <= at && at + 2 <= n implies !(#[trigger] s[at] == '.' && s[at
            + 1] == '.') by {
            if at + 2 == n {
                assert(s[n - 2] == s[at]);
            }
        }
    }
}

/// A file name without a pair of dots that starts with a letter and ends as
/// it should is safe.
proof fn lemma_safe_file(s: Seq<char>)
    requires
        s.len() > 5,
        !dots_upto(s, s.len()),
        s[0] != '/',
        s.subrange(s.len() - 5, s.len() as int) == ".gguf"@,
    ensures
        safe_file(s),
{
    reveal_strlit("..");
    reveal_strlit("/");
    reveal_strlit(".gguf");
    assert(".."@.len() == 2 && "/"@.len() == 1 && ".gguf"@.len() == 5);
    lemma_dots(s, s.len());
    assert forall|at: int| !occurs_at(s, ".."@, at) by {
        if occurs_at(s, ".."@, at) {
            let run = s.subrange(at, at + 2);
            assert(run[0] == ".."@[0] && run[1] == ".."@[1]);
            assert(s[at] == '.' && s[at + 1] == '.');
        }
    }
    if occurs_at(s, "/"@, 0) {
        assert(s.subrange(0, 1)[0] == "/"@[0]);
    }
}

/// A repository id with a slash holds one.
proof fn lemma_slash(s: Seq<char>, at: int)
    requires
        0 <= at < s.len(),
        s[at] == '/',
    ensures
        occurs_in(s, "/"@),
{
    reveal_strlit("/");
    assert("/"@.len() == 1);
    assert(s.subrange(at, at + 1) =~= "/"@);
    assert(occurs_at(s, "/"@, at));
}

/// A longer name of permitted characters is safe.
proof fn lemma_safe_name(s: Seq<char>)
    requires
        s.len() > 2,
        name_chars(s, s.len()),
    ensures
        safe_name(s),
{
    reveal_strlit(".");
    reveal_strlit("..");
    assert("."@.len() == 1 && ".."@.len() == 2);
}

/// Entry 0 is accepted.
proof fn lemma_entry_0()
    ensures
        refusal(catalog_entry(0)) is None,
{
    reveal_strlit("main");
    assert("main"@.len() == 4);
    reveal_strlit("qwen2.5-1.5b-instruct");
    reveal_strlit("Qwen/Qwen2.5-1.5B-Instruct");
    assert("qwen2.5-1.5b-instruct"@.len() == 21);
    assert("Qwen/Qwen2.5-1.5B-Instruct"@.len() == 26);
    reveal_with_fuel(name_chars, 22);
    assert(name_chars("qwen2.5-1.5b-instruct"@, 21));
    lemma_safe_name("qwen2.5-1.5b-instruct"@);
    lemma_slash("Qwen/Qwen2.5-1.5B-Instruct"@, 4);
}

/// Entry 1 is accepted.
proof fn lemma_entry_1()
    ensures
        refusal(catalog_entry(1)) is None,
{
    reveal_strlit("main");
    assert("main"@.len() == 4);
    reveal_strlit("qwen2.5-0.5b-instruct");
    reveal_strlit("Qwen/Qwen2.5-0.5B-Instruct");
    assert("qwen2.5-0.5b-instruct"@.len() == 21);
    assert("Qwen/Qwen2.5-0.5B-Instruct"@.len() == 26);
    reveal_with_fuel(name_chars, 22);
    assert(name_chars("qwen2.5-0.5b-instruct"@, 21));
    lemma_safe_name("qwen2.5-0.5b-instruct"@);
    lemma_slash("Qwen/Qwen2.5-0.5B-Instruct"@, 4);
}

/// Entry 2 is accepted.
proof fn lemma_entry_2()
    ensures
        refusal(catalog_entry(2)) is None,
{
    reveal_strlit("main");
    assert("main"@.len() == 4);
    reveal_strlit("lfm2.5-1.2b");
    reveal_strlit("LiquidAI/LFM2.5-1.2B-Instruct");
    assert("lfm2.5-1.2b"@.len() == 11);
    assert("LiquidAI/LFM2.5-1.2B-Instruct"@.len() == 29);
    reveal_with_fuel(name_chars, 12);
    assert(name_chars("lfm2.5-1.2b"@, 11));
    lemma_safe_name("lfm2.5-1.2b"@);
    lemma_slash("LiquidAI/LFM2.5-1.2B-Instruct"@, 8);
}

/// Entry 3 is accepted.
proof fn lemma_entry_3()
    ensures
        refusal(catalog_entry(3)) is None,
{
    reveal_strlit("main");
    assert("main"@.len() == 4);
    reveal_strlit("lfm2.5-230m");
    reveal_strlit("LiquidAI/LFM2.5-230M");
    assert("lfm2.5-230m"@.len() == 11);
    assert("LiquidAI/LFM2.5-230M"@.len() == 20);
    reveal_with_fuel(name_chars, 12);
    assert(name_chars("lfm2.5-230m"@, 11));
    lemma_safe_name("lfm2.5-230m"@);
    lemma_slash("LiquidAI/LFM2.5-230M"@, 8);
}

/// Entry 4 is accepted.
proof fn lemma_entry_4()
    ensures
        refusal(catalog_entry(4)) is None,
{
    reveal_strlit("main");
    assert("main"@.len() == 4);
    reveal_strlit("all-minilm-l6-v2");
    reveal_strlit("sentence-transformers/all-MiniLM-L6-v2");
    assert("all-minilm-l6-v2"@.len() == 16);
    assert("sentence-transformers/all-MiniLM-L6-v2"@.len() == 38);
    reveal_with_fuel(name_chars, 17);
    assert(name_chars("all-minilm-l6-v2"@, 16));
    lemma_safe_name("all-minilm-l6-v2"@);
    lemma_slash("sentence-transformers/all-MiniLM-L6-v2"@, 21);
}

/// Entry 5 is accepted.
proof fn lemma_entry_5()
    ensures
        refusal(catalog_entry(5)) is None,
{
    reveal_strlit("main");
    assert("main"@.len() == 4);
    reveal_strlit("qwen2.5-1.5b-instruct-q4km");
    reveal_strlit("Qwen/Qwen2.5-1.5B-Instruct-GGUF");
    assert("qwen2.5-1.5b-instruct-q4km"@.len() == 26);
    assert("Qwen/Qwen2.5-1.5B-Instruct-GGUF"@.len() == 31);
    reveal_with_fuel(name_chars, 27);
    assert(name_chars("qwen2.5-1.5b-instruct-q4km"@, 26));
    lemma_safe_name("qwen2.5-1.5b-instruct-q4km"@);
    lemma_slash("Qwen/Qwen2.5-1.5B-Instruct-GGUF"@, 4);
    reveal_strlit("qwen2.5-1.5b-instruct-q4_k_m.gguf");
    reveal_strlit(".gguf");
    assert("qwen2.5-1.5b-instruct-q4_k_m.gguf"@.len() == 33);
    reveal_with_fuel(dots_upto, 34);
    assert(!dots_upto("qwen2.5-1.5b-instruct-q4_k_m.gguf"@, 33));
    assert("qwen2.5-1.5b-instruct-q4_k_m.gguf"@.subrange(28, 33) =~= ".gguf"@);
    lemma_safe_file("qwen2.5-1.5b-instruct-q4_k_m.gguf"@);
}

/// Entry 6 is accepted.
proof fn lemma_entry_6()
    ensures
        refusal(catalog_entry(6)) is None,
{
    reveal_strlit("main");
    assert("main"@.len() == 4);
    reveal_strlit("lfm2.5-1.2b-q4km");
    reveal_strlit("LiquidAI/LFM2.5-1.2B-Instruct-GGUF");
    assert("lfm2.5-1.2b-q4km"@.len() == 16);
    assert("LiquidAI/LFM2.5-1.2B-Instruct-GGUF"@.len() == 34);
    reveal_with_fuel(name_chars, 17);
    assert(name_chars("lfm2.5-1.2b-q4km"@, 16));
    lemma_safe_name("lfm2.5-1.2b-q4km"@);
    lemma_slash("LiquidAI/LFM2.5-1.2B-Instruct-GGUF"@, 8);
    reveal_strlit("LFM2.5-1.2B-Instruct-Q4_K_M.gguf");
    reveal_strlit(".gguf");
    assert("LFM2.5-1.2B-Instruct-Q4_K_M.gguf"@.len() == 32);
    reveal_with_fuel(dots_upto, 33);
    assert(!dots_upto("LFM2.5-1.2B-Instruct-Q4_K_M.gguf"@, 32));
    assert("LFM2.5-1.2B-Instruct-Q4_K_M.gguf"@.subrange(27, 32) =~= ".gguf"@);
    lemma_safe_file("LFM2.5-1.2B-Instruct-Q4_K_M.gguf"@);
}

/// Entry 7 is accepted.
proof fn lemma_entry_7()
    ensures
        refusal(catalog_entry(7)) is None,
{
    reveal_strlit("main");
    assert("main"@.len() == 4);
    reveal_strlit("qwen3-0.6b");
    reveal_strlit("Qwen/Qwen3-0.6B");
    assert("qwen3-0.6b"@.len() == 10);
    assert("Qwen/Qwen3-0.6B"@.len() == 15);
    reveal_with_fuel(name_chars, 11);
    assert(name_chars("qwen3-0.6b"@, 10));
    lemma_safe_name("qwen3-0.6b"@);
    lemma_slash("Qwen/Qwen3-0.6B"@, 4);
}

/// Entry 8 is accepted.
proof fn lemma_entry_8()
    ensures
        refusal(catalog_entry(8)) is None,
{
    reveal_strlit("main");
    assert("main"@.len() == 4);
    reveal_strlit("qwen3-0.6b-q4km");
    reveal_strlit("unsloth/Qwen3-0.6B-GGUF");
    assert("qwen3-0.6b-q4km"@.len() == 15);
    assert("unsloth/Qwen3-0.6B-GGUF"@.len() == 23);
    reveal_with_fuel(name_chars, 16);
    assert(name_chars("qwen3-0.6b-q4km"@, 15));
    lemma_safe_name("qwen3-0.6b-q4km"@);
    lemma_slash("unsloth/Qwen3-0.6B-GGUF"@, 7);
    reveal_strlit("Qwen3-0.6B-Q4_K_M.gguf");
    reveal_strlit(".gguf");
    assert("Qwen3-0.6B-Q4_K_M.gguf"@.len() == 22);
    reveal_with_fuel(dots_upto, 23);
    assert(!dots_upto("Qwen3-0.6B-Q4_K_M.gguf"@, 22));
    assert("Qwen3-0.6B-Q4_K_M.gguf"@.subrange(17, 22) =~= ".gguf"@);
    lemma_safe_file("Qwen3-0.6B-Q4_K_M.gguf"@);
}

/// Entry 9 is accepted.
proof fn lemma_entry_9()
    ensures
        refusal(catalog_entry(9)) is None,
{
    reveal_strlit("main");
    assert("main"@.len() == 4);
    reveal_strlit("qwen3-4b");
    reveal_strlit("Qwen/Qwen3-4B");
    assert("qwen3-4b"@.len() == 8);
    assert("Qwen/Qwen3-4B"@.len() == 13);
    reveal_with_fuel(name_chars, 9);
    assert(name_chars("qwen3-4b"@, 8));
    lemma_safe_name("qwen3-4b"@);
    lemma_slash("Qwen/Qwen3-4B"@, 4);
}

/// Entry 10 is accepted.
proof fn lemma_entry_10()
    ensures
        refusal(catalog_entry(10)) is None,
{
    reveal_strlit("main");
    assert("main"@.len() == 4);
    reveal_strlit("qwen3-4b-q4km");
    reveal_strlit("Qwen/Qwen3-4B-GGUF");
    assert("qwen3-4b-q4km"@.len() == 13);
    assert("Qwen/Qwen3-4B-GGUF"@.len() == 18);
    reveal_with_fuel(name_chars, 14);
    assert(name_chars("qwen3-4b-q4km"@, 13));
    lemma_safe_name("qwen3-4b-q4km"@);
    lemma_slash("Qwen/Qwen3-4B-GGUF"@, 4);
    reveal_strlit("Qwen3-4B-Q4_K_M.gguf");
    reveal_strlit(".gguf");
    assert("Qwen3-4B-Q4_K_M.gguf"@.len() == 20);
    reveal_with_fuel(dots_upto, 21);
    assert(!dots_upto("Qwen3-4B-Q4_K_M.gguf"@, 20));
    assert("Qwen3-4B-Q4_K_M.gguf"@.subrange(15, 20) =~= ".gguf"@);
    lemma_safe_file("Qwen3-4B-Q4_K_M.gguf"@);
}

/// Entry 11 is accepted.
proof fn lemma_entry_11()
    ensures
        refusal(catalog_entry(11)) is None,
{
    reveal_strlit("main");
    assert("main"@.len() == 4);
    reveal_strlit("olmoe-1b-7b-0125-instruct-q4km");
    reveal_strlit("allenai/OLMoE-1B-7B-0125-Instruct-GGUF");
    assert("olmoe-1b-7b-0125-instruct-q4km"@.len() == 30);
    assert("allenai/OLMoE-1B-7B-0125-Instruct-GGUF"@.len() == 38);
    reveal_with_fuel(name_chars, 31);
    assert(name_chars("olmoe-1b-7b-0125-instruct-q4km"@, 30));
    lemma_safe_name("olmoe-1b-7b-0125-instruct-q4km"@);
    lemma_slash("allenai/OLMoE-1B-7B-0125-Instruct-GGUF"@, 7);
    reveal_strlit("OLMoE-1B-7B-0125-Instruct-Q4_K_M.gguf");
    reveal_strlit(".gguf");
    assert("OLMoE-1B-7B-0125-Instruct-Q4_K_M.gguf"@.len() == 37);
    reveal_with_fuel(dots_upto, 38);
    assert(!dots_upto("OLMoE-1B-7B-0125-Instruct-Q4_K_M.gguf"@, 37));
    assert("OLMoE-1B-7B-0125-Instruct-Q4_K_M.gguf"@.subrange(32, 37) =~= ".gguf"@);
    lemma_safe_file("OLMoE-1B-7B-0125-Instruct-Q4_K_M.gguf"@);
}

/// Entry 12 is accepted.
proof fn lemma_entry_12()
    ensures
        refusal(catalog_entry(12)) is None,
{
    reveal_strlit("main");
    assert("main"@.len() == 4);
    reveal_strlit("olmoe-1b-7b-0125-instruct");
    reveal_strlit("allenai/OLMoE-1B-7B-0125-Instruct");
    assert("olmoe-1b-7b-0125-instruct"@.len() == 25);
    assert("allenai/OLMoE-1B-7B-0125-Instruct"@.len() == 33);
    reveal_with_fuel(name_chars, 26);
    assert(name_chars("olmoe-1b-7b-0125-instruct"@, 25));
    lemma_safe_name("olmoe-1b-7b-0125-instruct"@);
    lemma_slash("allenai/OLMoE-1B-7B-0125-Instruct"@, 7);
}

/// Every entry of the catalog is accepted.
pub proof fn the_catalog_validates(i: int)
    requires
        0 <= i < CATALOG_LEN,
    ensures
        refusal(catalog_entry(i)) is None,
{
    lemma_entry_0();
    lemma_entry_1();
    lemma_entry_2();
    lemma_entry_3();
    lemma_entry_4();
    lemma_entry_5();
    lemma_entry_6();
    lemma_entry_7();
    lemma_entry_8();
    lemma_entry_9();
    lemma_entry_10();
    lemma_entry_11();
    lemma_entry_12();
}

} // verus!
