//! Removing what transcodes left behind.

use vstd::prelude::*;

use crate::text::{
    dec_int, is_space_spec, law_signed_numbers_read_back, law_trimming, lemma_dec_int_chars, list_has,
    parse_signed, signed_value, texts, trim, trim_spec,
};

verus! {

/// The part of the administration that a task is listed under.
#[derive(Debug, Clone, Copy, PartialEq, Eq, Structural)]
pub enum TaskCategory {
    Maintenance,
}

/// Removes the directories of transcodes that no session uses any more, and
/// ends the transcoders that still write to them.
#[derive(Debug, Clone, Copy)]
pub struct CleanTranscodeFolderTask;

/// The directories that no session uses.
pub open spec fn unused(names: Seq<Seq<char>>, active: Seq<Seq<char>>) -> Seq<Seq<char>> {
    names.filter(not_in(active))
}

pub open spec fn not_in(active: Seq<Seq<char>>) -> spec_fn(Seq<char>) -> bool {
    |name: Seq<char>| !active.contains(name)
}

/// The process that a file names: a positive number that fits in 32 bits,
/// with or without white space around it.
pub open spec fn named_process(text: Seq<char>) -> Option<int> {
    match signed_value(trim_spec(text)) {
        Some(n) => if 0 < n <= i32::MAX {
            Some(n)
        } else {
            None
        },
        None => None,
    }
}

impl CleanTranscodeFolderTask {
    pub fn key(&self) -> (r: &'static str)
        ensures
            r@ == "CleanTranscodeFolder"@,
    {
        "CleanTranscodeFolder"
    }

    pub fn name(&self) -> (r: &'static str)
        ensures
            r@ == "Clean Transcode Folder"@,
    {
        "Clean Transcode Folder"
    }

    pub fn description(&self) -> (r: &'static str)
        ensures
            r@ == "Deletes temporary files left over from transcoding sessions."@,
    {
        "Deletes temporary files left over from transcoding sessions."
    }

    pub fn short_description(&self) -> (r: &'static str)
        ensures
            r@ == "Deletes leftover temp transcode files"@,
    {
        "Deletes leftover temp transcode files"
    }

    pub fn category(&self) -> (r: TaskCategory)
        ensures
            r == TaskCategory::Maintenance,
    {
        TaskCategory::Maintenance
    }

    /// The directories to remove, among those that are there.
    pub fn unused_dirs(&self, names: &Vec<String>, active: &Vec<String>) -> (r: Vec<String>)
        ensures
            texts(r@) == unused(texts(names@), texts(active@)),
    {
        let ghost all = texts(names@);
        let ghost p = not_in(texts(active@));
        let mut r: Vec<String> = Vec::new();
        proof {
            reveal(Seq::filter);
            assert(texts(r@) =~= all.take(0).filter(p));
        }
        let mut i: usize = 0;
        while i < names.len()
            invariant
                i <= names.len(),
                all == texts(names@),
                p == not_in(texts(active@)),
                texts(r@) == all.take(i as int).filter(p),
            decreases names.len() - i,
        {
            proof {
                reveal(Seq::filter);
                assert(all.take(i + 1).drop_last() =~= all.take(i as int));
                assert(all.take(i + 1).last() == names@[i as int]@);
            }
            if !list_has(active, names[i].as_str()) {
                let ghost before = r@;
                r.push(names[i].clone());
                assert(texts(r@) =~= texts(before).push(names@[i as int]@));
            }
            i = i + 1;
        }
        assert(all.take(all.len() as int) =~= all);
        r
    }

    /// The transcoder to end before a directory is removed, by what its
    /// process file holds.
    pub fn orphaned_process(&self, text: &str) -> (r: Option<i32>)
        ensures
            match r {
                Some(pid) => named_process(text@) == Some(pid as int),
                None => named_process(text@) is None,
            },
    {
        let text = trim(text);
        match parse_signed(text.as_str()) {
            Some(n) => {
                if 0 < n && n <= i32::MAX as i64 {
                    Some(n as i32)
                } else {
                    None
                }
            },
            None => None,
        }
    }
}

/// Nothing that a session uses is removed, and everything else is.
pub proof fn law_only_unused_directories_go(names: Seq<Seq<char>>, active: Seq<Seq<char>>)
    ensures
        forall|name: Seq<char>|
            unused(names, active).contains(name) <==> names.contains(name) && !active.contains(
                name,
            ),
{
    let p = not_in(active);
    assert forall|name: Seq<char>|
        unused(names, active).contains(name) <==> names.contains(name) && !active.contains(
            name,
        ) by {
        if unused(names, active).contains(name) {
            let i = choose|i: int|
                0 <= i < unused(names, active).len() && unused(names, active)[i] == name;
            names.lemma_filter_pred(p, i);
            names.lemma_filter_contains_rev(p, name);
        }
        if names.contains(name) && !active.contains(name) {
            let i = choose|i: int| 0 <= i < names.len() && names[i] == name;
            names.lemma_filter_contains(p, i);
        }
    }
}

/// The number of a process is read with white space around it; a number that is none of a
/// process, and a text that is no number, name none.
pub proof fn law_processes_are_named(pid: i32, before: Seq<char>, after: Seq<char>)
    requires
        forall|i: int| 0 <= i < before.len() ==> is_space_spec(#[trigger] before[i]),
        forall|i: int| 0 <= i < after.len() ==> is_space_spec(#[trigger] after[i]),
    ensures
        pid > 0 ==> named_process(before + dec_int(pid as int) + after) == Some(pid as int),
        pid <= 0 ==> named_process(before + dec_int(pid as int) + after) is None,
        named_process(before + Seq::empty() + after) is None,
{
    let text = dec_int(pid as int);
    law_signed_numbers_read_back(pid as i64);
    lemma_dec_int_chars(pid as int);
    law_trimming(before, text, after);
    law_trimming(before, Seq::empty(), after);
}

} // verus!
