//! Selective manifest update: a mapping of permission names to booleans is
//! folded over a manifest, overwriting only the four recognized capability
//! flags. Unrecognized keys are silently ignored; the skill name and the
//! filesystem allow-lists are never altered. Loading and persisting the
//! document around this step belongs to the caller.

use vstd::prelude::*;
use crate::capability::CapabilityManifest;
use crate::capability::ManifestView;
use crate::chars::str_to_chars;

verus! {

/// One flag assignment: a recognized key overwrites its flag, any other key
/// leaves the manifest unchanged.
pub open spec fn apply_flag(m: ManifestView, key: Seq<char>, value: bool) -> ManifestView {
    if key == "network"@ {
        ManifestView { network: value, ..m }
    } else if key == "gpu"@ {
        ManifestView { gpu: value, ..m }
    } else if key == "sensors"@ {
        ManifestView { sensors: value, ..m }
    } else if key == "camera"@ {
        ManifestView { camera: value, ..m }
    } else {
        m
    }
}

/// Left-to-right fold of flag assignments over a manifest.
pub open spec fn apply_flags(m: ManifestView, pairs: Seq<(Seq<char>, bool)>) -> ManifestView
    decreases pairs.len(),
{
    if pairs.len() == 0 {
        m
    } else {
        apply_flags(apply_flag(m, pairs[0].0, pairs[0].1), pairs.skip(1))
    }
}

/// View of an update list as key/value pairs of character sequences.
pub open spec fn pairs_view(pairs: Seq<(String, bool)>) -> Seq<(Seq<char>, bool)> {
    pairs.map_values(|p: (String, bool)| (p.0@, p.1))
}

proof fn lemma_apply_flags_snoc(m: ManifestView, pairs: Seq<(Seq<char>, bool)>, p: (Seq<char>, bool))
    ensures
        apply_flags(m, pairs.push(p)) == apply_flag(apply_flags(m, pairs), p.0, p.1),
    decreases pairs.len(),
{
    if pairs.len() == 0 {
        assert(pairs.push(p)[0] == p);
        assert(pairs.push(p).skip(1) =~= Seq::<(Seq<char>, bool)>::empty());
        assert(apply_flags(apply_flag(m, p.0, p.1), Seq::<(Seq<char>, bool)>::empty())
            == apply_flag(m, p.0, p.1));
    } else {
        assert(pairs.push(p)[0] == pairs[0]);
        assert(pairs.push(p).skip(1) =~= pairs.skip(1).push(p));
        lemma_apply_flags_snoc(apply_flag(m, pairs[0].0, pairs[0].1), pairs.skip(1), p);
        assert(apply_flags(m, pairs.push(p)) == apply_flags(
            apply_flag(m, pairs[0].0, pairs[0].1),
            pairs.skip(1).push(p),
        ));
    }
}

/// Selective update never touches the skill name or the filesystem
/// allow-lists, whatever keys and values arrive.
pub proof fn lemma_update_touches_flags_only(m: ManifestView, pairs: Seq<(Seq<char>, bool)>)
    ensures
        apply_flags(m, pairs).skill_name == m.skill_name,
        apply_flags(m, pairs).filesystem == m.filesystem,
    decreases pairs.len(),
{
    if pairs.len() > 0 {
        lemma_update_touches_flags_only(apply_flag(m, pairs[0].0, pairs[0].1), pairs.skip(1));
    }
}

/// A mapping with no recognized key changes nothing at all.
pub proof fn lemma_unknown_keys_ignored(m: ManifestView, pairs: Seq<(Seq<char>, bool)>)
    requires
        forall|k: int|
            0 <= k < pairs.len() ==> (#[trigger] pairs[k]).0 != "network"@ && pairs[k].0 != "gpu"@
                && pairs[k].0 != "sensors"@ && pairs[k].0 != "camera"@,
    ensures
        apply_flags(m, pairs) == m,
    decreases pairs.len(),
{
    if pairs.len() > 0 {
        assert(apply_flag(m, pairs[0].0, pairs[0].1) == m);
        assert(forall|k: int|
            0 <= k < pairs.skip(1).len() ==> #[trigger] pairs.skip(1)[k] == pairs[k + 1]);
        lemma_unknown_keys_ignored(m, pairs.skip(1));
    }
}

/// A single recognized assignment changes exactly its own flag.
pub proof fn lemma_single_flag_update(m: ManifestView, value: bool)
    ensures
        apply_flags(m, seq![("gpu"@, value)]) == (ManifestView { gpu: value, ..m }),
        apply_flags(m, seq![("network"@, value)]) == (ManifestView { network: value, ..m }),
        apply_flags(m, seq![("sensors"@, value)]) == (ManifestView { sensors: value, ..m }),
        apply_flags(m, seq![("camera"@, value)]) == (ManifestView { camera: value, ..m }),
{
    reveal_strlit("gpu");
    reveal_strlit("network");
    reveal_strlit("sensors");
    reveal_strlit("camera");
    assert("gpu"@.len() == 3 && "network"@.len() == 7 && "sensors"@.len() == 7 && "camera"@.len()
        == 6);
    assert("sensors"@[0] == 's' && "network"@[0] == 'n');
    assert("gpu"@ != "network"@ && "sensors"@ != "network"@ && "camera"@ != "network"@);
    assert("sensors"@ != "gpu"@ && "camera"@ != "gpu"@ && "camera"@ != "sensors"@);
    let e = Seq::<(Seq<char>, bool)>::empty();
    assert(seq![("gpu"@, value)].skip(1) =~= e);
    assert(seq![("network"@, value)].skip(1) =~= e);
    assert(seq![("sensors"@, value)].skip(1) =~= e);
    assert(seq![("camera"@, value)].skip(1) =~= e);
    assert(apply_flags(apply_flag(m, "gpu"@, value), e) == apply_flag(m, "gpu"@, value));
    assert(apply_flags(apply_flag(m, "network"@, value), e) == apply_flag(m, "network"@, value));
    assert(apply_flags(apply_flag(m, "sensors"@, value), e) == apply_flag(m, "sensors"@, value));
    assert(apply_flags(apply_flag(m, "camera"@, value), e) == apply_flag(m, "camera"@, value));
}

/// Overwrites the recognized capability flags named in `updates`, in order.
/// Unrecognized keys are ignored, not an error; the filesystem allow-lists
/// and the skill name come through unchanged.
pub fn apply_updates(manifest: CapabilityManifest, updates: &Vec<(String, bool)>) -> (r:
    CapabilityManifest)
    ensures
        r@ == apply_flags(manifest@, pairs_view(updates@)),
{
    let ghost pv = pairs_view(updates@);
    let ghost m0 = manifest@;
    let mut m = manifest;
    let mut i: usize = 0;
    proof {
        assert(pv.take(0) =~= Seq::<(Seq<char>, bool)>::empty());
    }
    while i < updates.len()
        invariant
            pv == pairs_view(updates@),
            pv.len() == updates@.len(),
            i <= updates@.len(),
            m@ == apply_flags(m0, pv.take(i as int)),
        decreases updates@.len() - i,
    {
        let key = str_to_chars(updates[i].0.as_str());
        let value = updates[i].1;
        assert(key@ == pv[i as int].0 && value == pv[i as int].1);
        proof {
            reveal_strlit("network");
            reveal_strlit("gpu");
            reveal_strlit("sensors");
            reveal_strlit("camera");
        }
        let is_network = key.len() == 7 && key[0] == 'n' && key[1] == 'e' && key[2] == 't'
            && key[3] == 'w' && key[4] == 'o' && key[5] == 'r' && key[6] == 'k';
        let is_gpu = key.len() == 3 && key[0] == 'g' && key[1] == 'p' && key[2] == 'u';
        let is_sensors = key.len() == 7 && key[0] == 's' && key[1] == 'e' && key[2] == 'n'
            && key[3] == 's' && key[4] == 'o' && key[5] == 'r' && key[6] == 's';
        let is_camera = key.len() == 6 && key[0] == 'c' && key[1] == 'a' && key[2] == 'm'
            && key[3] == 'e' && key[4] == 'r' && key[5] == 'a';
        proof {
            if is_network {
                assert(key@ =~= "network"@);
            }
            if is_gpu {
                assert(key@ =~= "gpu"@);
            }
            if is_sensors {
                assert(key@ =~= "sensors"@);
            }
            if is_camera {
                assert(key@ =~= "camera"@);
            }
        }
        if is_network {
            m.network = value;
        } else if is_gpu {
            m.gpu = value;
        } else if is_sensors {
            m.sensors = value;
        } else if is_camera {
            m.camera = value;
        }
        proof {
            assert(m@ == apply_flag(apply_flags(m0, pv.take(i as int)), key@, value));
            lemma_apply_flags_snoc(m0, pv.take(i as int), (key@, value));
            assert(pv.take(i + 1) =~= pv.take(i as int).push((key@, value)));
        }
        i = i + 1;
    }
    assert(pv.take(pv.len() as int) =~= pv);
    m
}

} // verus!
