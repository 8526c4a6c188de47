//! Built-in asset pools: read-only named byte blobs referenced as
//! `pool:path`.  The embedded data itself is handed in by the host process;
//! the lookup and reference semantics live here.

use vstd::prelude::*;
use vstd::string::StringExecFns;
use vstd::string::StringSliceAdditionalSpecFns;

use crate::text::eq_str;

verus! {

/// The testlib pool: the testlib header and its companions.
#[derive(Debug, Clone)]
pub struct Testlib {
    /// Path and content of each pooled file.
    pub files: Vec<(String, Vec<u8>)>,
}

/// The pool of stock checkers.
#[derive(Debug, Clone)]
pub struct Checker {
    /// Path and content of each pooled file.
    pub files: Vec<(String, Vec<u8>)>,
}

/// The built-in pools, by name: `testlib` and `checker`.
#[derive(Debug, Clone)]
pub struct Pools {
    pub testlib: Testlib,
    pub checker: Checker,
}

/// True when `p` names a pool.
pub open spec fn known_pool(p: Seq<char>) -> bool {
    p == "testlib"@ || p == "checker"@
}

/// The file list of the pool `p` names.
pub open spec fn pool_files(pools: Pools, p: Seq<char>) -> Seq<(String, Vec<u8>)> {
    if p == "testlib"@ {
        pools.testlib.files@
    } else {
        pools.checker.files@
    }
}

/// True when the named pool holds `path`.
pub open spec fn pool_has(pools: Pools, p: Seq<char>, path: Seq<char>) -> bool {
    exists|i: int|
        0 <= i < pool_files(pools, p).len() && #[trigger] pool_files(pools, p)[i].0@ == path
}

/// Finds `path` in a pool's file list.
fn pool_get<'a>(files: &'a Vec<(String, Vec<u8>)>, path: &str) -> (r: Option<&'a Vec<u8>>)
    ensures
        match r {
            Some(c) => exists|i: int|
                0 <= i < files@.len() && #[trigger] files@[i].0@ == path@ && files@[i].1 == *c,
            None => forall|i: int| 0 <= i < files@.len() ==> #[trigger] files@[i].0@ != path@,
        },
{
    let n = files.len();
    let mut i: usize = 0;
    while i < n
        invariant
            0 <= i <= n == files@.len(),
            forall|j: int| 0 <= j < i ==> #[trigger] files@[j].0@ != path@,
        decreases n - i,
    {
        if eq_str(files[i].0.as_str(), path) {
            return Some(&files[i].1);
        }
        i += 1;
    }
    None
}

/// A resolved reference into a built-in pool: which pool, which path, and
/// the referenced content.
#[derive(Debug, Clone)]
pub struct File {
    /// Pool name.
    pub pool: String,
    /// Path inside the pool.
    pub path: String,
    /// The referenced content.
    pub content: Vec<u8>,
}

/// True when `f`'s content is what its pool holds under its path.
pub open spec fn resolves(pools: Pools, f: File) -> bool {
    &&& known_pool(f.pool@)
    &&& exists|i: int|
        0 <= i < pool_files(pools, f.pool@).len() && #[trigger] pool_files(pools, f.pool@)[i].0@
            == f.path@ && pool_files(pools, f.pool@)[i].1@ == f.content@
}

/// Error when a `pool:path` reference cannot be read at all.
#[derive(Debug, Clone)]
pub enum FileFromStrError {
    /// No `:` separator was present; holds the offending text.
    Format(String),
    /// The reference was well-formed but did not resolve.
    NotExist(FileNotExistError),
}

/// Error when a well-formed reference does not resolve.
#[derive(Debug, Clone)]
pub enum FileNotExistError {
    /// No pool of that name; holds the pool name.
    Pool(String),
    /// The pool has no such path; holds pool and path.
    Path { pool: String, path: String },
}

impl File {
    /// Resolves `pool` and `path` against the given pools.  Succeeds exactly
    /// when the pool name is known and that pool holds the path; the
    /// resolved content is the pooled content.
    pub fn new(pools: &Pools, pool: &str, path: &str) -> (r: Result<File, FileNotExistError>)
        ensures
            match r {
                Ok(f) => f.pool@ == pool@ && f.path@ == path@ && resolves(*pools, f),
                Err(FileNotExistError::Pool(p)) => !known_pool(pool@) && p@ == pool@,
                Err(FileNotExistError::Path { pool: p, path: q }) => known_pool(pool@)
                    && !pool_has(*pools, pool@, path@) && p@ == pool@ && q@ == path@,
            },
            r is Ok <==> known_pool(pool@) && pool_has(*pools, pool@, path@),
    {
        let content: Vec<u8>;
        if eq_str(pool, "testlib") {
            match pool_get(&pools.testlib.files, path) {
                Some(c) => {
                    content = c.clone();
                },
                None => {
                    return Err(
                        FileNotExistError::Path {
                            pool: String::from_str(pool),
                            path: String::from_str(path),
                        },
                    );
                },
            }
        } else if eq_str(pool, "checker") {
            match pool_get(&pools.checker.files, path) {
                Some(c) => {
                    content = c.clone();
                },
                None => {
                    return Err(
                        FileNotExistError::Path {
                            pool: String::from_str(pool),
                            path: String::from_str(path),
                        },
                    );
                },
            }
        } else {
            return Err(FileNotExistError::Pool(String::from_str(pool)));
        }
        Ok(File { pool: String::from_str(pool), path: String::from_str(path), content })
    }

    /// Reads a `pool:path` reference: the text up to the first `:` names
    /// the pool, the rest is the path.  Text without a `:` is a format
    /// error; otherwise the parts resolve as [`File::new`] does.
    pub fn from_text(pools: &Pools, s: &str) -> (r: Result<File, FileFromStrError>)
        ensures
            ({
                let sb = s.spec_bytes();
                match r {
                    Err(FileFromStrError::Format(t)) => !sb.contains(0x3a) && t@ == s@,
                    Ok(f) => {
                        &&& sb.contains(0x3a)
                        &&& vstd::utf8::encode_utf8(f.pool@) == sb.subrange(0, sb.index_of_first(0x3a).unwrap())
                        &&& vstd::utf8::encode_utf8(f.path@) == sb.subrange(
                            sb.index_of_first(0x3a).unwrap() + 1,
                            sb.len() as int,
                        )
                        &&& resolves(*pools, f)
                    },
                    Err(FileFromStrError::NotExist(FileNotExistError::Pool(p))) => {
                        &&& sb.contains(0x3a)
                        &&& vstd::utf8::encode_utf8(p@) == sb.subrange(0, sb.index_of_first(0x3a).unwrap())
                        &&& !known_pool(p@)
                    },
                    Err(
                        FileFromStrError::NotExist(FileNotExistError::Path { pool: p, path: q }),
                    ) => {
                        &&& sb.contains(0x3a)
                        &&& known_pool(p@)
                        &&& !pool_has(*pools, p@, q@)
                        &&& vstd::utf8::encode_utf8(p@) == sb.subrange(0, sb.index_of_first(0x3a).unwrap())
                        &&& vstd::utf8::encode_utf8(q@) == sb.subrange(
                            sb.index_of_first(0x3a).unwrap() + 1,
                            sb.len() as int,
                        )
                    },
                }
            }),
    {
        broadcast use vstd::utf8::is_char_boundary_iff_not_is_continuation_byte;

        let ghost sb = s.spec_bytes();
        proof {
            vstd::utf8::encode_utf8_valid_utf8(s@);
        }
        let b = s.as_bytes();
        let n = b.len();
        let mut i: usize = 0;
        while i < n
            invariant
                0 <= i <= n == b@.len(),
                b@ == sb,
                sb == s.spec_bytes(),
                forall|j: int| 0 <= j < i ==> b@[j] != 0x3a,
            decreases n - i,
        {
            if b[i] == 0x3a {
                proof {
                    vstd::utf8::encode_utf8_valid_utf8(s@);
                    assert(sb.contains(0x3a));
                    sb.index_of_first_ensures(0x3a);
                    let k = sb.index_of_first(0x3a).unwrap();
                    assert(sb[k] == 0x3a);
                    if k < i {
                        assert(sb[k] != 0x3a);
                    }
                    if k > i {
                        assert(sb[i as int] != 0x3a);
                    }
                    assert(k == i);
                    assert(!vstd::utf8::is_continuation_byte(sb[i as int]));
                    assert(vstd::utf8::valid_utf8(sb));
                    vstd::utf8::is_char_boundary_iff_not_is_continuation_byte(sb, i as int);
                    assert(vstd::utf8::is_char_boundary(sb, i as int));
                }
                let parts = s.split_at(i);
                let rest = parts.1;
                proof {
                    assert(rest.spec_bytes() =~= sb.subrange(i as int, sb.len() as int));
                    assert(rest.spec_bytes()[0] == 0x3a);
                    vstd::utf8::encode_utf8_valid_utf8(rest@);
                    assert(!vstd::utf8::is_continuation_byte(rest.spec_bytes()[1 - 1]));
                    assert(vstd::utf8::is_char_boundary(rest.spec_bytes(), 1)) by {
                        if rest.spec_bytes().len() > 1 {
                            lemma_colon_then_no_continuation(rest.spec_bytes());
                            vstd::utf8::is_char_boundary_iff_not_is_continuation_byte(
                                rest.spec_bytes(),
                                1,
                            );
                        } else {
                            vstd::utf8::is_char_boundary_start_end_of_seq(rest.spec_bytes());
                        }
                    }
                }
                let tail_parts = rest.split_at(1);
                let path_part = tail_parts.1;
                proof {
                    assert(path_part.spec_bytes() =~= sb.subrange(i + 1 as int, sb.len() as int));
                }
                let pool_part = parts.0;
                proof {
                    assert(pool_part.spec_bytes() =~= sb.subrange(0, i as int));
                }
                return match File::new(pools, pool_part, path_part) {
                    Ok(f) => {
                        proof {
                            lemma_spec_bytes_of_eq_view(f.pool@, pool_part@);
                            lemma_spec_bytes_of_eq_view(f.path@, path_part@);
                        }
                        Ok(f)
                    },
                    Err(FileNotExistError::Pool(p)) => {
                        proof {
                            lemma_spec_bytes_of_eq_view(p@, pool_part@);
                        }
                        Err(FileFromStrError::NotExist(FileNotExistError::Pool(p)))
                    },
                    Err(FileNotExistError::Path { pool: p, path: q }) => {
                        proof {
                            lemma_spec_bytes_of_eq_view(p@, pool_part@);
                            lemma_spec_bytes_of_eq_view(q@, path_part@);
                        }
                        Err(
                            FileFromStrError::NotExist(
                                FileNotExistError::Path { pool: p, path: q },
                            ),
                        )
                    },
                };
            }
            i += 1;
        }
        proof {
            assert(forall|j: int| 0 <= j < sb.len() ==> sb[j] != 0x3a);
            assert(!sb.contains(0x3a));
        }
        Err(FileFromStrError::Format(String::from_str(s)))
    }

    /// The referenced content.
    pub fn as_bytes(&self) -> (r: &Vec<u8>)
        ensures
            r@ == self.content@,
    {
        &self.content
    }
}

/// In valid UTF-8 a byte cannot follow a colon as a continuation byte.
proof fn lemma_colon_then_no_continuation(b: Seq<u8>)
    requires
        vstd::utf8::valid_utf8(b),
        b.len() > 1,
        b[0] == 0x3a,
    ensures
        !vstd::utf8::is_continuation_byte(b[1]),
{
    broadcast use vstd::utf8::is_char_boundary_iff_not_is_continuation_byte;

    assert(vstd::utf8::valid_first_scalar(b));
    assert(vstd::utf8::length_of_first_scalar(b) == 1);
    assert(vstd::utf8::is_char_boundary(b, 1)) by {
        assert(vstd::utf8::is_char_boundary(vstd::utf8::pop_first_scalar(b), 0));
    }
}

/// Two texts with the same characters have the same bytes.
proof fn lemma_spec_bytes_of_eq_view(a: Seq<char>, b: Seq<char>)
    requires
        a == b,
    ensures
        vstd::utf8::encode_utf8(a) == vstd::utf8::encode_utf8(b),
{
}

} // verus!
