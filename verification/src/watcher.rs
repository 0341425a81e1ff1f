//! Manifests in a directory: which files count, and what becomes of two that
//! name the same Pod.

use vstd::prelude::*;

use crate::duplicate::Duplicate;
use crate::names::NameMap;
use crate::pod::{Pod, PodView};
use crate::text;

verus! {

/// Where the last dot of a text is, or its length where there is none.
pub open spec fn last_dot(s: Seq<char>) -> nat
    decreases s.len(),
{
    if s.len() == 0 {
        0
    } else if s.last() == '.' {
        (s.len() - 1) as nat
    } else {
        let i = last_dot(s.drop_last());
        if i == s.len() - 1 {
            s.len()
        } else {
            i
        }
    }
}

/// The extension of a file name: what follows its last dot, unless the name
/// starts with that dot.
pub open spec fn extension_of(name: Seq<char>) -> Option<Seq<char>> {
    let i = last_dot(name);
    if name == ".."@ || i == 0 || i == name.len() {
        None
    } else {
        Some(name.skip((i + 1) as int))
    }
}

proof fn last_dot_from(s: Seq<char>, k: int)
    requires
        0 <= k <= s.len(),
        forall|i: int| k <= i < s.len() ==> s[i] != '.',
    ensures
        k > 0 && s[k - 1] == '.' ==> last_dot(s) == k - 1,
        k == 0 ==> last_dot(s) == s.len(),
    decreases s.len(),
{
    if s.len() > 0 && k < s.len() {
        assert(s.last() == s[s.len() - 1]);
        let front = s.drop_last();
        assert forall|i: int| k <= i < front.len() implies front[i] != '.' by {
            assert(front[i] == s[i]);
        }
        last_dot_from(front, k);
    }
}

fn extension(name: &str) -> (ext: Option<String>)
    ensures
        ext.deep_view() == extension_of(name@),
{
    let n: usize = name.unicode_len();
    let mut k: usize = n;
    while k > 0 && name.get_char(k - 1) != '.'
        invariant
            k <= n,
            n == name@.len(),
            forall|i: int| k <= i < n ==> name@[i] != '.',
        decreases k,
    {
        k = k - 1;
    }
    proof {
        last_dot_from(name@, k as int);
    }
    if text::same(name, "..") || k <= 1 {
        return None;
    }
    let ext = name.substring_char(k, n).to_owned();
    assert(ext@ =~= name@.skip(k as int));
    Some(ext)
}

/// Whether a file holds a manifest, by its name.
pub open spec fn is_manifest(name: Seq<char>) -> bool {
    extension_of(name) == Some("yaml"@) || extension_of(name) == Some("yml"@)
}

pub fn is_yaml_file(name: &str) -> (r: bool)
    ensures
        r == is_manifest(name@),
{
    match extension(name) {
        Some(ext) => text::same(ext.as_str(), "yaml") || text::same(ext.as_str(), "yml"),
        None => false,
    }
}

/// A file of the directory, by its name, with the Pod that could be read from
/// it, if one could.
#[derive(Debug, Clone, PartialEq)]
pub struct ManifestFile {
    pub name: String,
    pub pod: Option<Pod>,
}

/// What a `ManifestFile` holds.
#[verifier::ext_equal]
pub struct ManifestFileView {
    pub name: Seq<char>,
    pub pod: Option<PodView>,
}

impl DeepView for ManifestFile {
    type V = ManifestFileView;

    open spec fn deep_view(&self) -> ManifestFileView {
        ManifestFileView { name: self.name@, pod: self.pod.deep_view() }
    }
}

/// The Pods that a directory asks for, by name. A file that is no manifest, or
/// that no Pod could be read from, is passed over; of two files that name the
/// same Pod, the later one counts.
pub open spec fn asked_for(files: Seq<ManifestFileView>) -> Map<Seq<char>, PodView>
    decreases files.len(),
{
    if files.len() == 0 {
        Map::empty()
    } else {
        let front = asked_for(files.drop_last());
        match files.last().pod {
            Some(pod) => if is_manifest(files.last().name) {
                front.insert(pod.metadata.name, pod)
            } else {
                front
            },
            None => front,
        }
    }
}

/// Collects the Pods that a directory asks for.
pub fn scan(files: &Vec<ManifestFile>) -> (pods: NameMap<Pod>)
    ensures
        pods@ == asked_for(files.deep_view()),
{
    let ghost all = files.deep_view();
    let mut pods: NameMap<Pod> = NameMap::new();
    assert(all.take(0) =~= Seq::<ManifestFileView>::empty());
    for i in 0..files.len()
        invariant
            all == files.deep_view(),
            pods@ == asked_for(all.take(i as int)),
    {
        proof {
            assert(all.take(i + 1).drop_last() =~= all.take(i as int));
            assert(all.take(i + 1).last() == files@[i as int].deep_view());
        }
        if let Some(pod) = &files[i].pod {
            if is_yaml_file(files[i].name.as_str()) {
                pods.insert(pod.metadata.name.clone(), pod.duplicate());
            }
        }
    }
    assert(all.take(files@.len() as int) =~= all);
    pods
}

/// Law: each manifest that could be read is asked for under its Pod's name,
/// unless a later one names the same Pod; nothing else is asked for.
pub proof fn later_files_win(files: Seq<ManifestFileView>, name: Seq<char>, pod: PodView)
    ensures
        asked_for(files).contains_pair(name, pod) <==> exists|i: int|
            #[trigger] decides(files, i, name) && files[i].pod == Some(pod),
    decreases files.len(),
{
    if files.len() > 0 {
        let front = files.drop_last();
        let end = files.len() - 1;
        later_files_win(front, name, pod);
        if names(files[end], name) {
            assert(decides(files, end, name));
            assert forall|i: int| #[trigger] decides(files, i, name) implies i == end by {
                if i < end {
                    assert(!names(files[end], name));
                }
            }
        } else {
            assert forall|i: int|
                decides(files, i, name) <==> #[trigger] decides(front, i, name) by {
                assert forall|k: int| 0 <= k < front.len() implies #[trigger] front[k]
                    == files[k] by {}
                if decides(front, i, name) {
                    assert forall|k: int| i < k < files.len() implies !names(
                        #[trigger] files[k],
                        name,
                    ) by {
                        if k < end {
                            assert(!names(front[k], name));
                        }
                    }
                }
                if decides(files, i, name) {
                    assert forall|k: int| i < k < front.len() implies !names(
                        #[trigger] front[k],
                        name,
                    ) by {
                        assert(!names(files[k], name));
                    }
                }
            }
            if exists|i: int| #[trigger] decides(files, i, name) && files[i].pod == Some(pod) {
                let i = choose|i: int| #[trigger] decides(files, i, name) && files[i].pod == Some(pod);
                assert(decides(front, i, name));
            }
            if exists|i: int| #[trigger] decides(front, i, name) && front[i].pod == Some(pod) {
                let i = choose|i: int| #[trigger] decides(front, i, name) && front[i].pod == Some(pod);
                assert(decides(files, i, name));
            }
        }
    }
}

/// Whether a file is a manifest of the Pod of a name.
pub open spec fn names(file: ManifestFileView, name: Seq<char>) -> bool {
    is_manifest(file.name) && match file.pod {
        Some(pod) => pod.metadata.name == name,
        None => false,
    }
}

/// Whether a file is the last manifest of the Pod of a name.
pub open spec fn decides(files: Seq<ManifestFileView>, i: int, name: Seq<char>) -> bool {
    &&& 0 <= i < files.len()
    &&& names(files[i], name)
    &&& forall|k: int| i < k < files.len() ==> !names(#[trigger] files[k], name)
}


proof fn last_dot_is_found(name: Seq<char>)
    ensures
        last_dot(name) <= name.len(),
        last_dot(name) < name.len() ==> name[last_dot(name) as int] == '.',
    decreases name.len(),
{
    if name.len() > 0 && name.last() != '.' {
        last_dot_is_found(name.drop_last());
    }
}

proof fn endings_are_extensions(stem: Seq<char>, ext: Seq<char>)
    requires
        stem.len() > 0,
        ext.len() > 0,
        forall|i: int| 0 <= i < ext.len() ==> ext[i] != '.',
    ensures
        extension_of(stem + "."@ + ext) == Some(ext),
{
    reveal_strlit(".");
    reveal_strlit("..");
    let name = stem + "."@ + ext;
    let k = stem.len() as int + 1;
    assert(name[k - 1] == '.');
    assert forall|i: int| k <= i < name.len() implies name[i] != '.' by {
        assert(name[i] == ext[i - k]);
    }
    last_dot_from(name, k);
    assert(name.skip(k) =~= ext);
    assert(name != ".."@) by {
        assert(name.len() > 2);
    }
}

/// Law: a manifest is a file whose name ends in `.yaml` or `.yml`, with
/// something before that, and no other one.
pub proof fn manifests_go_by_their_ending(name: &str, r: bool, stem: Seq<char>)
    requires
        call_ensures(is_yaml_file, (name,), r),
    ensures
        stem.len() > 0 && (name@ == stem + "."@ + "yaml"@ || name@ == stem + "."@ + "yml"@) ==> r,
        r ==> exists|before: Seq<char>|
            before.len() > 0 && (name@ == #[trigger] (before + "."@) + "yaml"@ || name@ == (before
                + "."@) + "yml"@),
{
    reveal_strlit(".");
    reveal_strlit("yaml");
    reveal_strlit("yml");
    if stem.len() > 0 {
        endings_are_extensions(stem, "yaml"@);
        endings_are_extensions(stem, "yml"@);
    }
    if r {
        last_dot_is_found(name@);
        let i = last_dot(name@) as int;
        let before = name@.take(i);
        assert(name@ =~= (before + "."@) + name@.skip(i + 1));
    }
}

} // verus!
