//! The capability manifest: declared filesystem allow-lists, hardware
//! capability flags, and the prefix-based authorization check.

use vstd::prelude::*;
use crate::chars::str_to_chars;
use crate::chars::chars_to_string;
use crate::chars::is_char_prefix;
use crate::normalize::normalize_seq;
use crate::normalize::normalize_chars;

verus! {

/// Mathematical view of `FSAccess`.
pub struct FsView {
    pub read: Seq<Seq<char>>,
    pub write: Seq<Seq<char>>,
    pub delete: Seq<Seq<char>>,
}

/// Mathematical view of `CapabilityManifest`.
pub struct ManifestView {
    pub skill_name: Seq<char>,
    pub filesystem: FsView,
    pub network: bool,
    pub gpu: bool,
    pub sensors: bool,
    pub camera: bool,
}

/// Declared filesystem access: one ordered list of path prefixes per
/// operation kind. Duplicates are permitted and behaviorally redundant.
#[derive(Debug, Clone)]
pub struct FSAccess {
    pub read: Vec<String>,
    pub write: Vec<String>,
    pub delete: Vec<String>,
}

/// A skill's declarative capability manifest: its name, its filesystem
/// allow-lists, and four independent hardware capability flags.
#[derive(Debug, Clone)]
pub struct CapabilityManifest {
    pub skill_name: String,
    pub filesystem: FSAccess,
    pub network: bool,
    pub gpu: bool,
    pub sensors: bool,
    pub camera: bool,
}

impl View for FSAccess {
    type V = FsView;

    open spec fn view(&self) -> FsView {
        FsView {
            read: self.read.deep_view(),
            write: self.write.deep_view(),
            delete: self.delete.deep_view(),
        }
    }
}

impl View for CapabilityManifest {
    type V = ManifestView;

    open spec fn view(&self) -> ManifestView {
        ManifestView {
            skill_name: self.skill_name@,
            filesystem: self.filesystem@,
            network: self.network,
            gpu: self.gpu,
            sensors: self.sensors,
            camera: self.camera,
        }
    }
}

/// An allow-list admits a normalized path exactly when the normalization of
/// some entry is a literal character prefix of it. The comparison is not
/// segment-boundary aware: entry `/data` admits `/database` as well. That
/// over-permissive rule is the control's declared behavior, kept deliberate
/// so that tightening it is an explicit choice of the caller; see
/// `normalize_seq` for the canonical form both sides are brought to.
pub open spec fn allows(list: Seq<Seq<char>>, np: Seq<char>) -> bool {
    exists|i: int|
        0 <= i < list.len() && (#[trigger] normalize_seq(list[i])).is_prefix_of(np)
}

/// What `validate` decides: the path is normalized, the allow-list is chosen
/// by the operation name, and any unrecognized operation is denied outright
/// (fail-closed).
pub open spec fn validate_spec(m: ManifestView, op: Seq<char>, path: Seq<char>) -> bool {
    let np = normalize_seq(path);
    if op == "read"@ {
        allows(m.filesystem.read, np)
    } else if op == "write"@ {
        allows(m.filesystem.write, np)
    } else if op == "delete"@ {
        allows(m.filesystem.delete, np)
    } else {
        false
    }
}

/// An operation outside `{read, write, delete}` is denied for every manifest
/// and every path: denial is the default, not an error.
pub proof fn lemma_unknown_operation_denied(m: ManifestView, op: Seq<char>, path: Seq<char>)
    requires
        op != "read"@,
        op != "write"@,
        op != "delete"@,
    ensures
        !validate_spec(m, op, path),
{
}

/// Tests whether any entry of `list`, once normalized, is a prefix of the
/// (already normalized) path `np`.
fn any_entry_allows(list: &Vec<String>, np: &Vec<char>) -> (r: bool)
    ensures
        r == allows(list.deep_view(), np@),
{
    let ghost lv = list.deep_view();
    let mut i: usize = 0;
    while i < list.len()
        invariant
            lv == list.deep_view(),
            i <= list@.len(),
            lv.len() == list@.len(),
            forall|k: int| 0 <= k < i ==> !(#[trigger] normalize_seq(lv[k])).is_prefix_of(np@),
        decreases list@.len() - i,
    {
        let entry = str_to_chars(list[i].as_str());
        assert(entry@ == lv[i as int]);
        let ne = normalize_chars(&entry);
        if is_char_prefix(&ne, np) {
            assert(normalize_seq(lv[i as int]).is_prefix_of(np@));
            return true;
        }
        i = i + 1;
    }
    false
}

impl CapabilityManifest {
    /// Canonicalizes a path string: separators unified, drive prefix kept,
    /// `.` and `..` segments resolved; pure and total, no filesystem access.
    pub fn normalize_path(path: &str) -> (r: String)
        ensures
            r@ == normalize_seq(path@),
    {
        let v = str_to_chars(path);
        let n = normalize_chars(&v);
        chars_to_string(&n)
    }

    /// Decides whether this manifest permits `operation` on `path`.
    /// Read-only, never fails; ambiguity resolves to denial.
    pub fn validate(&self, operation: &str, path: &str) -> (r: bool)
        ensures
            r == validate_spec(self@, operation@, path@),
    {
        let op = str_to_chars(operation);
        let path_chars = str_to_chars(path);
        let np = normalize_chars(&path_chars);
        proof {
            reveal_strlit("read");
            reveal_strlit("write");
            reveal_strlit("delete");
        }
        let is_read = op.len() == 4 && op[0] == 'r' && op[1] == 'e' && op[2] == 'a' && op[3]
            == 'd';
        proof {
            if is_read {
                assert(op@ =~= "read"@);
            }
        }
        if is_read {
            return any_entry_allows(&self.filesystem.read, &np);
        }
        let is_write = op.len() == 5 && op[0] == 'w' && op[1] == 'r' && op[2] == 'i' && op[3]
            == 't' && op[4] == 'e';
        proof {
            if is_write {
                assert(op@ =~= "write"@);
            }
        }
        if is_write {
            return any_entry_allows(&self.filesystem.write, &np);
        }
        let is_delete = op.len() == 6 && op[0] == 'd' && op[1] == 'e' && op[2] == 'l' && op[3]
            == 'e' && op[4] == 't' && op[5] == 'e';
        proof {
            if is_delete {
                assert(op@ =~= "delete"@);
            }
        }
        if is_delete {
            return any_entry_allows(&self.filesystem.delete, &np);
        }
        false
    }

    /// Whether the manifest grants network access.
    pub fn has_network(&self) -> (r: bool)
        ensures
            r == self@.network,
    {
        self.network
    }

    /// Whether the manifest grants GPU access.
    pub fn has_gpu(&self) -> (r: bool)
        ensures
            r == self@.gpu,
    {
        self.gpu
    }

    /// Whether the manifest grants sensor access.
    pub fn has_sensors(&self) -> (r: bool)
        ensures
            r == self@.sensors,
    {
        self.sensors
    }

    /// Whether the manifest grants camera access.
    pub fn has_camera(&self) -> (r: bool)
        ensures
            r == self@.camera,
    {
        self.camera
    }
}

} // verus!
