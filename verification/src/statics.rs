//! Static asset resolver: user-configured directories in declaration order,
//! then the embedded viewer assets. The first available directory containing
//! the path wins; embedded assets are consulted only when the viewer is
//! enabled, and only they carry the permissive cross-origin header. A
//! directory missing on disk at startup is skipped with a recorded warning,
//! never an error.

use vstd::prelude::*;
use crate::bytes::{bytes_eq, extend_bytes};

verus! {

/// One servable asset: URL path, content type and body.
pub struct Asset {
    pub path: Vec<u8>,
    pub media: Vec<u8>,
    pub body: Vec<u8>,
}

/// Mathematical model of an `Asset`.
pub struct AssetModel {
    pub path: Seq<u8>,
    pub media: Seq<u8>,
    pub body: Seq<u8>,
}

impl View for Asset {
    type V = AssetModel;

    open spec fn view(&self) -> AssetModel {
        AssetModel { path: self.path@, media: self.media@, body: self.body@ }
    }
}

/// One configured static directory: its configured name, whether it existed
/// on disk at startup, and the assets found under it.
pub struct DirSource {
    pub name: Vec<u8>,
    pub available: bool,
    pub assets: Vec<Asset>,
}

/// Mathematical model of a `DirSource`.
pub struct DirModel {
    pub name: Seq<u8>,
    pub available: bool,
    pub assets: Seq<AssetModel>,
}

impl View for DirSource {
    type V = DirModel;

    open spec fn view(&self) -> DirModel {
        DirModel {
            name: self.name@,
            available: self.available,
            assets: self.assets@.map_values(|a: Asset| a@),
        }
    }
}

/// The static resolution table: configured directories in declaration order,
/// the embedded default assets, and the viewer flag that gates them.
pub struct StaticResolver {
    pub dirs: Vec<DirSource>,
    pub embedded: Vec<Asset>,
    pub viewer: bool,
}

/// Mathematical model of a `StaticResolver`.
pub struct StaticModel {
    pub dirs: Seq<DirModel>,
    pub embedded: Seq<AssetModel>,
    pub viewer: bool,
}

impl View for StaticResolver {
    type V = StaticModel;

    open spec fn view(&self) -> StaticModel {
        StaticModel {
            dirs: self.dirs@.map_values(|d: DirSource| d@),
            embedded: self.embedded@.map_values(|a: Asset| a@),
            viewer: self.viewer,
        }
    }
}

/// The first asset in `assets` whose path is `path`.
pub open spec fn spec_asset_lookup(assets: Seq<AssetModel>, path: Seq<u8>) -> Option<AssetModel>
    decreases assets.len(),
{
    if assets.len() == 0 {
        None
    } else if assets[0].path == path {
        Some(assets[0])
    } else {
        spec_asset_lookup(assets.skip(1), path)
    }
}

/// The asset served from the configured directories: the first available
/// directory containing `path` wins; unavailable directories are skipped.
pub open spec fn spec_dirs_lookup(dirs: Seq<DirModel>, path: Seq<u8>) -> Option<AssetModel>
    decreases dirs.len(),
{
    if dirs.len() == 0 {
        None
    } else if dirs[0].available && spec_asset_lookup(dirs[0].assets, path) is Some {
        spec_asset_lookup(dirs[0].assets, path)
    } else {
        spec_dirs_lookup(dirs.skip(1), path)
    }
}

/// The full static resolution: configured directories first, then — only
/// with the viewer enabled — the embedded assets. The flag says whether the
/// hit came from the embedded table (and so carries the cross-origin
/// header).
pub open spec fn spec_resolve_static(m: StaticModel, path: Seq<u8>) -> Option<(AssetModel, bool)> {
    match spec_dirs_lookup(m.dirs, path) {
        Some(a) => Some((a, false)),
        None => if m.viewer {
            match spec_asset_lookup(m.embedded, path) {
                Some(a) => Some((a, true)),
                None => None,
            }
        } else {
            None
        },
    }
}

/// The names of the configured directories that were missing at startup, in
/// declaration order.
pub open spec fn spec_missing_dirs(dirs: Seq<DirModel>) -> Seq<Seq<u8>>
    decreases dirs.len(),
{
    if dirs.len() == 0 {
        Seq::empty()
    } else if !dirs[0].available {
        seq![dirs[0].name] + spec_missing_dirs(dirs.skip(1))
    } else {
        spec_missing_dirs(dirs.skip(1))
    }
}

/// A static hit: the asset's content type and body, and whether it came from
/// the embedded table.
pub struct StaticHit {
    pub media: Vec<u8>,
    pub body: Vec<u8>,
    pub embedded: bool,
}

fn asset_lookup<'a>(assets: &'a Vec<Asset>, path: &[u8]) -> (r: Option<&'a Asset>)
    ensures
        match r {
            Some(a) => spec_asset_lookup(assets@.map_values(|x: Asset| x@), path@) == Some(a@),
            None => spec_asset_lookup(assets@.map_values(|x: Asset| x@), path@) is None,
        },
{
    let ghost m = assets@.map_values(|x: Asset| x@);
    let n = assets.len();
    proof {
        assert(m.skip(0) =~= m);
    }
    let mut i: usize = 0;
    while i < n
        invariant
            n == assets@.len(),
            m == assets@.map_values(|x: Asset| x@),
            0 <= i <= n,
            spec_asset_lookup(m, path@) == spec_asset_lookup(m.skip(i as int), path@),
        decreases n - i,
    {
        proof {
            assert(m.skip(i as int)[0] == m[i as int]);
            assert(m.skip(i as int).skip(1) =~= m.skip(i + 1));
        }
        if bytes_eq(assets[i].path.as_slice(), path) {
            return Some(&assets[i]);
        }
        i += 1;
    }
    proof {
        assert(m.skip(n as int) =~= Seq::<AssetModel>::empty());
    }
    None
}

impl StaticResolver {
    /// Resolves a request path against the precedence chain.
    pub fn resolve(&self, path: &[u8]) -> (r: Option<StaticHit>)
        ensures
            match r {
                Some(h) => spec_resolve_static(self@, path@) is Some && {
                    let (a, emb) = spec_resolve_static(self@, path@).unwrap();
                    h.media@ == a.media && h.body@ == a.body && h.embedded == emb
                },
                None => spec_resolve_static(self@, path@) is None,
            },
    {
        let ghost dm = self.dirs@.map_values(|d: DirSource| d@);
        let n = self.dirs.len();
        proof {
            assert(dm.skip(0) =~= dm);
        }
        let mut i: usize = 0;
        while i < n
            invariant
                n == self.dirs@.len(),
                dm == self.dirs@.map_values(|d: DirSource| d@),
                0 <= i <= n,
                spec_dirs_lookup(dm, path@) == spec_dirs_lookup(dm.skip(i as int), path@),
            decreases n - i,
        {
            proof {
                assert(dm.skip(i as int)[0] == dm[i as int]);
                assert(dm.skip(i as int).skip(1) =~= dm.skip(i + 1));
            }
            if self.dirs[i].available {
                match asset_lookup(&self.dirs[i].assets, path) {
                    Some(a) => {
                        let mut media: Vec<u8> = Vec::new();
                        extend_bytes(&mut media, a.media.as_slice());
                        let mut body: Vec<u8> = Vec::new();
                        extend_bytes(&mut body, a.body.as_slice());
                        proof {
                            assert(media@ =~= a.media@);
                            assert(body@ =~= a.body@);
                        }
                        return Some(StaticHit { media, body, embedded: false });
                    },
                    None => {},
                }
            }
            i += 1;
        }
        proof {
            assert(dm.skip(n as int) =~= Seq::<DirModel>::empty());
            assert(spec_dirs_lookup(dm, path@) is None);
        }
        if !self.viewer {
            return None;
        }
        match asset_lookup(&self.embedded, path) {
            Some(a) => {
                let mut media: Vec<u8> = Vec::new();
                extend_bytes(&mut media, a.media.as_slice());
                let mut body: Vec<u8> = Vec::new();
                extend_bytes(&mut body, a.body.as_slice());
                proof {
                    assert(media@ =~= a.media@);
                    assert(body@ =~= a.body@);
                }
                Some(StaticHit { media, body, embedded: true })
            },
            None => None,
        }
    }

    /// The warnings owed at startup: one per configured directory missing on
    /// disk, naming it, in declaration order.
    pub fn startup_warnings(&self) -> (w: Vec<Vec<u8>>)
        ensures
            w@.map_values(|x: Vec<u8>| x@) == spec_missing_dirs(self@.dirs),
    {
        let ghost dm = self.dirs@.map_values(|d: DirSource| d@);
        let n = self.dirs.len();
        let mut w: Vec<Vec<u8>> = Vec::new();
        proof {
            assert(dm.skip(0) =~= dm);
        }
        let mut i: usize = 0;
        while i < n
            invariant
                n == self.dirs@.len(),
                dm == self.dirs@.map_values(|d: DirSource| d@),
                0 <= i <= n,
                spec_missing_dirs(dm) == w@.map_values(|x: Vec<u8>| x@) + spec_missing_dirs(
                    dm.skip(i as int),
                ),
            decreases n - i,
        {
            proof {
                assert(dm.skip(i as int)[0] == dm[i as int]);
                assert(dm.skip(i as int).skip(1) =~= dm.skip(i + 1));
            }
            if !self.dirs[i].available {
                let mut name: Vec<u8> = Vec::new();
                extend_bytes(&mut name, self.dirs[i].name.as_slice());
                proof {
                    assert(name@ =~= dm[i as int].name);
                }
                w.push(name);
                proof {
                    assert(spec_missing_dirs(dm.skip(i as int)) == seq![dm[i as int].name]
                        + spec_missing_dirs(dm.skip(i + 1)));
                    assert(w@.map_values(|x: Vec<u8>| x@) + spec_missing_dirs(dm.skip(i + 1))
                        =~= spec_missing_dirs(dm));
                }
            }
            i += 1;
        }
        proof {
            assert(dm.skip(n as int) =~= Seq::<DirModel>::empty());
            assert(w@.map_values(|x: Vec<u8>| x@) + spec_missing_dirs(dm.skip(n as int))
                =~= w@.map_values(|x: Vec<u8>| x@));
        }
        w
    }
}

/// A path present both in an available configured directory and in the
/// embedded assets resolves to the configured directory's content, without
/// the cross-origin header: when every directory before `i` misses and
/// directory `i` is available and contains the path, its asset is served.
pub proof fn lemma_configured_dir_precedence(m: StaticModel, path: Seq<u8>, i: int)
    requires
        0 <= i < m.dirs.len(),
        m.dirs[i].available,
        spec_asset_lookup(m.dirs[i].assets, path) is Some,
        forall|j: int|
            0 <= j < i ==> !(m.dirs[j].available && spec_asset_lookup(m.dirs[j].assets, path)
                is Some),
    ensures
        spec_resolve_static(m, path) == Some(
            (spec_asset_lookup(m.dirs[i].assets, path).unwrap(), false),
        ),
{
    lemma_dirs_lookup_first_hit(m.dirs, path, i);
}

proof fn lemma_dirs_lookup_first_hit(dirs: Seq<DirModel>, path: Seq<u8>, i: int)
    requires
        0 <= i < dirs.len(),
        dirs[i].available,
        spec_asset_lookup(dirs[i].assets, path) is Some,
        forall|j: int|
            0 <= j < i ==> !(dirs[j].available && spec_asset_lookup(dirs[j].assets, path) is Some),
    ensures
        spec_dirs_lookup(dirs, path) == spec_asset_lookup(dirs[i].assets, path),
    decreases i,
{
    if i == 0 {
    } else {
        assert(dirs.skip(1)[i - 1] == dirs[i]);
        assert(forall|j: int| 0 <= j < i - 1 ==> dirs.skip(1)[j] == dirs[j + 1]);
        lemma_dirs_lookup_first_hit(dirs.skip(1), path, i - 1);
    }
}

/// A directory missing at startup never affects resolution: dropping it from
/// the table leaves every lookup unchanged, so the remaining routes are
/// served exactly as if it had not been configured.
pub proof fn lemma_missing_dir_ignored(m: StaticModel, path: Seq<u8>, i: int)
    requires
        0 <= i < m.dirs.len(),
        !m.dirs[i].available,
    ensures
        spec_resolve_static(m, path) == spec_resolve_static(
            StaticModel { dirs: m.dirs.remove(i), embedded: m.embedded, viewer: m.viewer },
            path,
        ),
{
    lemma_dirs_lookup_skip_missing(m.dirs, path, i);
}

proof fn lemma_dirs_lookup_skip_missing(dirs: Seq<DirModel>, path: Seq<u8>, i: int)
    requires
        0 <= i < dirs.len(),
        !dirs[i].available,
    ensures
        spec_dirs_lookup(dirs, path) == spec_dirs_lookup(dirs.remove(i), path),
    decreases i,
{
    if i == 0 {
        assert(dirs.remove(0) =~= dirs.skip(1));
    } else {
        assert(dirs.skip(1)[i - 1] == dirs[i]);
        lemma_dirs_lookup_skip_missing(dirs.skip(1), path, i - 1);
        assert(dirs.remove(i)[0] == dirs[0]);
        assert(dirs.remove(i).skip(1) =~= dirs.skip(1).remove(i - 1));
    }
}

/// A missing directory's name is recorded among the startup warnings.
pub proof fn lemma_missing_dir_warned(dirs: Seq<DirModel>, i: int)
    requires
        0 <= i < dirs.len(),
        !dirs[i].available,
    ensures
        spec_missing_dirs(dirs).contains(dirs[i].name),
    decreases i,
{
    if i == 0 {
        assert(spec_missing_dirs(dirs)[0] == dirs[0].name);
    } else {
        assert(dirs.skip(1)[i - 1] == dirs[i]);
        lemma_missing_dir_warned(dirs.skip(1), i - 1);
        let rest = spec_missing_dirs(dirs.skip(1));
        let k = choose|k: int| 0 <= k < rest.len() && rest[k] == dirs[i].name;
        if !dirs[0].available {
            assert(spec_missing_dirs(dirs)[k + 1] == dirs[i].name);
        } else {
            assert(spec_missing_dirs(dirs)[k] == dirs[i].name);
        }
    }
}

} // verus!
