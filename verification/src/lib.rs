//! Binary wire-format codec for structured messages: values are packed into
//! fixed-width 64-bit words across contiguous segments, referenced by relative
//! pointers, with presence bitmaps for optional record fields and a bijective
//! minification scheme for numeric field identifiers.

pub mod array;
pub mod arrays;
mod bytes_le;
pub mod cli;
pub mod code_gen;
pub mod error;
pub mod error_messages;
pub mod field_id;
pub mod language;
pub mod pointer;
pub mod pointers;
pub mod problems;
pub mod record;
pub mod segments;
pub mod types;

use vstd::prelude::*;

use crate::cli::CliArgs;
use crate::problems::Problem;

verus! {

/// The distinct strings of `v`, each kept at its first occurrence, in order.
pub fn unique_strings(v: &Vec<String>) -> (uniq: Vec<String>)
    ensures
        forall|k: int|
            0 <= k < uniq@.len() ==> crate::code_gen::spec_has_str(v@, #[trigger] uniq@[k]@),
        forall|i: int|
            0 <= i < v@.len() ==> crate::code_gen::spec_has_str(uniq@, #[trigger] v@[i]@),
        forall|k: int, l: int| 0 <= k < l < uniq@.len() ==> uniq@[k]@ != uniq@[l]@,
{
    let mut uniq: Vec<String> = Vec::new();
    let mut i: usize = 0;
    while i < v.len()
        invariant
            i <= v@.len(),
            forall|k: int|
                0 <= k < uniq@.len() ==> crate::code_gen::spec_has_str(v@, #[trigger] uniq@[k]@),
            forall|j: int|
                0 <= j < i ==> crate::code_gen::spec_has_str(uniq@, #[trigger] v@[j]@),
            forall|k: int, l: int| 0 <= k < l < uniq@.len() ==> uniq@[k]@ != uniq@[l]@,
        decreases v@.len() - i,
    {
        let mut seen: bool = false;
        let mut j: usize = 0;
        while j < uniq.len()
            invariant
                j <= uniq@.len(),
                i < v@.len(),
                seen ==> crate::code_gen::spec_has_str(uniq@, v@[i as int]@),
                !seen ==> forall|k: int| 0 <= k < j ==> #[trigger] uniq@[k]@ != v@[i as int]@,
            decreases uniq@.len() - j,
        {
            if uniq[j] == v[i] {
                seen = true;
            }
            j += 1;
        }
        if !seen {
            let ghost before: Seq<String> = uniq@;
            uniq.push(v[i].clone());
            proof {
                assert(uniq@ =~= before.push(uniq@[before.len() as int]));
                assert(uniq@[uniq@.len() - 1]@ == v@[i as int]@);
                assert forall|k: int| 0 <= k < uniq@.len() implies crate::code_gen::spec_has_str(
                    v@,
                    #[trigger] uniq@[k]@,
                ) by {
                    if k < before.len() {
                        assert(uniq@[k]@ == before[k]@);
                    }
                }
                assert forall|j: int| 0 <= j <= i implies crate::code_gen::spec_has_str(
                    uniq@,
                    #[trigger] v@[j]@,
                ) by {
                    if j < i {
                        crate::code_gen::lemma_has_str_push(
                            before,
                            uniq@[before.len() as int],
                            v@[j]@,
                        );
                    } else {
                        assert(uniq@[uniq@.len() - 1]@ == v@[j]@);
                    }
                }
            }
        }
        i += 1;
    }
    uniq
}

/// One run of the tool, on the raw option values: validates the arguments
/// and gathers the distinct file paths to process. The caller prints the
/// headline on success and reports the problem on failure.
pub fn run(client: Option<String>, server: Option<String>, file_paths: Vec<String>) -> (r: Result<
    (CliArgs, Vec<String>),
    Problem,
>)
    ensures
        match crate::cli::spec_validate(crate::cli::spec_opt_chars(client)) {
            Err(t) => r matches Err(Problem::Cli(cli::Problem::InvalidLanguage(e))) && e@ == t,
            Ok(cl) => match crate::cli::spec_validate(crate::cli::spec_opt_chars(server)) {
                Err(t) => r matches Err(Problem::Cli(cli::Problem::InvalidLanguage(e))) && e@ == t,
                Ok(sl) => r matches Ok((args, uniq)) && args.client == cl && args.server == sl
                    && args.file_paths == file_paths && (forall|k: int|
                    0 <= k < uniq@.len() ==> crate::code_gen::spec_has_str(
                        args.file_paths@,
                        #[trigger] uniq@[k]@,
                    )) && (forall|i: int|
                    0 <= i < args.file_paths@.len() ==> crate::code_gen::spec_has_str(
                        uniq@,
                        #[trigger] args.file_paths@[i]@,
                    )) && (forall|k: int, l: int|
                    0 <= k < l < uniq@.len() ==> uniq@[k]@ != uniq@[l]@),
            },
        },
{
    match cli::parse_args(client, server, file_paths) {
        Err(problem) => Err(Problem::Cli(problem)),
        Ok(args) => {
            let uniq: Vec<String> = unique_strings(&args.file_paths);
            Ok((args, uniq))
        },
    }
}

} // verus!
