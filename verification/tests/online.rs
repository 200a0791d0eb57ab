use llmctl::discovery::online::artifacts::{
    artifact_sizes_fit, artifacts_with_cache, HeaderInfo, Lfs, RepositoryDetail, Sibling,
};
use llmctl::discovery::online::cache::{
    cache_blob_paths_in, cached_downloaded_bytes, cached_file_in, cached_revision,
    download_record_path, download_records_dir, hub_repo_dir, hugging_face_cache,
    materialize_snapshot_file, record_files, remote_revision, repo_cache_dir,
    repository_candidates, BlobSizes, CacheEnv,
};
use llmctl::discovery::online::catalog::{
    cached_sort, gated_value, generated_file, keeps_directory, load_cached, load_fitting,
    merge_repositories,
    repository_url, request_for_path, request_repositories, save_selected_repository, GatedValue,
    CachedDetail, Listed, Request, Sort,
};
use llmctl::discovery::online::companions::{
    is_companion, is_dflash_companion, label_bits, is_mtp_companion, is_projector_companion,
    matching_dflash_companion, matching_mtp_companion, matching_projector_companion, parent_path,
    strip_suffix_ascii_case, MANY_BITS,
};
use llmctl::discovery::online::deletion::{deletion_fits_in, deletion_in, DiskFacts, FileFact};
use llmctl::discovery::online::transfer::{
    download_size, finalize_obstacle, finalize_step, next_blob_step, BlobStep, DownloadJobRecord,
};
use llmctl::discovery::online::{repository_directory, repository_list_path, Repository};
use llmctl::domain::{Model, RemoteBlob, RemoteModel};
use llmctl::names::safe_component;

fn texts(v: &[&str]) -> Vec<String> {
    v.iter().map(|s| s.to_string()).collect()
}

fn remote(repo: &str, file: &str, blobs: Vec<RemoteBlob>) -> RemoteModel {
    RemoteModel {
        repo: repo.into(),
        revision: Some("abc".into()),
        file: Some(file.into()),
        blobs,
        mtp_file: None,
        dflash_file: None,
        projector_file: None,
        downloads: 0,
        likes: 0,
        gated: false,
    }
}

fn repository(id: &str, downloads: u64, likes: u64) -> Repository {
    Repository { id: id.into(), downloads, likes, sha: Some("abc".into()), gated: false }
}

fn sibling(name: &str, oid: &str, size: u64) -> Sibling {
    Sibling {
        rfilename: name.into(),
        size: Some(size),
        lfs: Some(Lfs { oid: Some(oid.repeat(32)), size: Some(size) }),
    }
}

fn uncached(detail: &RepositoryDetail) -> Vec<Model> {
    assert!(artifact_sizes_fit(detail));
    let cached = detail.siblings.iter().map(|_| None).collect();
    artifacts_with_cache("/root", detail, cached, None)
}

// --- requests ----------------------------------------------------------------

#[test]
fn gated_accepts_boolean_and_string_api_shapes() {
    let read = |json: &str| {
        let value: serde_json::Value = serde_json::from_str(json).unwrap();
        gated_value(&match &value["gated"] {
            serde_json::Value::Null => GatedValue::Null,
            serde_json::Value::Bool(flag) => GatedValue::Flag(*flag),
            _ => GatedValue::Other,
        })
    };
    assert!(!read(r#"{"gated":false}"#));
    assert!(read(r#"{"gated":"manual"}"#));
    assert!(!read("{}"));
}

#[test]
fn request_scope_follows_online_catalog_depth() {
    let popular = request_for_path(&texts(&["online"]), Sort::Popular);
    assert!(matches!(popular, Some(Request::Repositories(Sort::Popular))));
    let repo = request_for_path(&texts(&["online", "huggingface", "owner/repo"]), Sort::Downloads);
    assert!(matches!(repo, Some(Request::Repository(r)) if r == "owner/repo"));
    assert!(request_for_path(&texts(&["models"]), Sort::Trending).is_none());
}

#[test]
fn sort_cycles_and_uses_hub_sort_names() {
    assert_eq!(Sort::Trending.next(), Sort::Popular);
    assert_eq!(Sort::Popular.next(), Sort::Downloads);
    assert_eq!(Sort::Downloads.next(), Sort::Trending);
    assert_eq!(Sort::Trending.label(), "Trending");
    assert_eq!(Sort::Popular.label(), "Most likes");
    assert_eq!(Sort::Downloads.label(), "Most downloads");
    assert_eq!(Sort::Trending.api_value(), "trendingScore");
    assert_eq!(Sort::Popular.api_value(), "likes");
    assert_eq!(Sort::Downloads.api_value(), "downloads");
}

#[test]
fn a_request_names_what_it_asks_for() {
    let query = request_repositories(&Some("qwen".into()), &None, Sort::Popular);
    let pairs: Vec<(&str, &str)> = query.iter().map(|p| (p.0.as_str(), p.1.as_str())).collect();
    assert_eq!(
        pairs,
        [
            ("filter", "gguf"),
            ("apps", "llama.cpp"),
            ("sort", "likes"),
            ("direction", "-1"),
            ("limit", "30"),
            ("search", "qwen"),
        ]
    );
    assert_eq!(repository_url("o/r"), "https://huggingface.co/api/models/o/r");
    let by = request_repositories(&None, &Some("me".into()), Sort::Trending);
    assert_eq!(by.last().unwrap().0, "author");
}

// --- the kept catalog --------------------------------------------------------

#[test]
fn clearing_layout_preserves_profiles_and_records_cached_sort() {
    assert_eq!(cached_sort(Some(Sort::Downloads)), Sort::Downloads);
    assert_eq!(cached_sort(None), Sort::Trending);
    assert!(keeps_directory(5, "profiles") && keeps_directory(1, ".downloads"));
    assert!(!keeps_directory(0, "profiles") && !keeps_directory(2, "repo"));
    assert!(generated_file(".llmctl-online.yml", false));
    assert!(generated_file(".repository.json", false));
    assert!(generated_file(".repositories.json", false));
    assert!(generated_file("model.gguf", true) && !generated_file("model.gguf", false));
    assert!(!generated_file("Chat.yml", false));
}

#[test]
fn only_the_selected_search_repository_is_persisted() {
    let root = "/root";
    let results: Vec<Model> = [
        repository("owner/first", 10, 1),
        repository("owner/selected", 20, 2),
        repository("owner/ignored", 30, 3),
    ]
    .iter()
    .map(|repository| repository_directory(root, repository))
    .collect();

    let kept = save_selected_repository(Vec::new(), &results[1]).unwrap();
    let list = kept.into_iter().map(|repository| Listed { repository, detail: None }).collect();

    let cached = load_cached(root, list);
    let repositories = cached
        .iter()
        .filter_map(|model| model.remote.as_ref().map(|remote| remote.repo.as_str()))
        .collect::<Vec<_>>();
    assert_eq!(repositories, vec!["owner/selected"]);
    assert_eq!(cached_sort(Some(Sort::Popular)), Sort::Popular);
}

#[test]
fn only_repositories_can_be_added() {
    let mut model = repository_directory("/root", &repository("o/r", 1, 1));
    model.remote.as_mut().unwrap().file = Some("f.gguf".into());
    assert_eq!(
        save_selected_repository(Vec::new(), &model).unwrap_err(),
        "selected model is a Hub artifact, not a repository"
    );
    model.remote = None;
    assert_eq!(
        save_selected_repository(Vec::new(), &model).unwrap_err(),
        "selected model is not a Hub repository"
    );
}

#[test]
fn merging_keeps_the_fresh_order_and_loses_nothing() {
    let ids = |v: Vec<Repository>| v.into_iter().map(|r| r.id).collect::<Vec<_>>();
    let merged = merge_repositories(
        vec![repository("b", 0, 0), repository("a", 0, 0)],
        &vec![repository("a", 9, 9), repository("c", 0, 0)],
    );
    assert_eq!(ids(merged), ["b", "a", "c"]);
}

// --- the cache ---------------------------------------------------------------

#[test]
fn cached_file_path_uses_standard_hub_layout() {
    assert_eq!(safe_component("folder/model.gguf", false), "folder_model.gguf");
    assert_eq!(safe_component("..", false), "_");
    assert_eq!(
        cache_blob_paths_in("/cache", "owner/repo", "aabb").unwrap(),
        (
            "/cache/models--owner--repo/blobs/aabb.downloadInProgress".to_string(),
            "/cache/models--owner--repo/blobs/aabb".to_string()
        )
    );
    assert!(cache_blob_paths_in("/cache", "owner/repo", "../x").is_none());
}

#[test]
fn the_cache_is_where_the_environment_says() {
    let mut env = CacheEnv {
        hf_hub_cache: None,
        huggingface_hub_cache: None,
        hf_home: None,
        home: Some("/home/u".into()),
    };
    let at = |env: &CacheEnv| hugging_face_cache(env).unwrap();
    assert_eq!(at(&env), "/home/u/.cache/huggingface/hub");
    env.hf_home = Some("/hf".into());
    assert_eq!(at(&env), "/hf/hub");
    env.huggingface_hub_cache = Some("/hub".into());
    assert_eq!(at(&env), "/hub");
    assert_eq!(cached_revision(&Some(" rev\n".into())).as_deref(), Some("rev"));
    assert_eq!(cached_revision(&Some(" \n".into())), None);
    assert_eq!(
        cached_file_in("/hub", "o/r", "rev", "d/f.gguf"),
        "/hub/models--o--r/snapshots/rev/d/f.gguf"
    );
}

#[test]
fn a_repository_is_recognized_by_its_shape() {
    let path = "/x/models--a/models--o--r/snapshots/abc/m.gguf";
    assert_eq!(repository_candidates(path), ["/x/models--a/models--o--r", "/x/models--a"]);
    assert_eq!(hub_repo_dir(path, &vec![false, true]).as_deref(), Some("/x/models--a"));
    assert_eq!(hub_repo_dir(path, &vec![false, false]), None);
    assert_eq!(hub_repo_dir("/x/m.gguf", &Vec::new()), None);
    let plan = materialize_snapshot_file("/hub", &remote("o/r", "f.gguf", Vec::new()), "f.gguf");
    assert_eq!(plan.reference, "/hub/models--o--r/refs/main");
    assert_eq!(plan.snapshot, "/hub/models--o--r/snapshots/abc/f.gguf");
}

#[test]
fn download_honors_cancellation_before_starting_network_io() {
    let blob =
        RemoteBlob { oid: "ff".repeat(32), size_bytes: 1_000, file: "model.gguf".into() };
    let remote = remote("owner/cancel-test", "model.gguf", vec![blob]);
    assert_eq!(download_size(&remote), Ok(1_000));
    let nothing = BlobSizes { incomplete: None, complete: None };
    assert_eq!(next_blob_step(true, 1_000, Some(nothing)), BlobStep::Stop);
}

#[test]
fn blobs_are_fetched_renamed_or_linked() {
    let sizes = |incomplete, complete| Some(BlobSizes { incomplete, complete });
    assert_eq!(next_blob_step(false, 9, sizes(None, None)), BlobStep::Fetch);
    assert_eq!(next_blob_step(false, 9, sizes(Some(9), None)), BlobStep::Promote);
    assert_eq!(next_blob_step(false, 9, sizes(Some(1), Some(9))), BlobStep::Link);
    assert_eq!(next_blob_step(false, 9, None), BlobStep::NoPlace);
    assert_eq!(finalize_step(9, sizes(None, None)).unwrap_err(), "download is still incomplete");
    assert_eq!(
        finalize_step(9, None).unwrap_err(),
        "Hugging Face cache directory is unavailable"
    );
    let mut r = remote("o/r", "f", Vec::new());
    assert_eq!(finalize_obstacle(&r).as_deref(), Some("Hub artifact has no blob metadata"));
    assert!(download_size(&r).unwrap_err().contains("no downloadable blob metadata"));
    r.blobs = vec![RemoteBlob { oid: "a".into(), size_bytes: 0, file: "f".into() }];
    assert_eq!(download_size(&r).unwrap_err(), "Hub artifact reports an unknown download size");
    r.blobs[0].file = String::new();
    assert!(download_size(&r).unwrap_err().contains("incomplete shard metadata"));
    r.file = None;
    assert_eq!(download_size(&r).unwrap_err(), "Hub artifact has no filename");
    assert_eq!(finalize_obstacle(&r).as_deref(), Some("Hub artifact has no filename"));
}

#[test]
fn cached_bytes_count_what_is_there() {
    let blob = |size| RemoteBlob { oid: "a".into(), size_bytes: size, file: "f".into() };
    let sizes = |incomplete, complete| BlobSizes { incomplete, complete };
    assert_eq!(
        cached_downloaded_bytes(
            &vec![blob(10), blob(10), blob(10)],
            &vec![sizes(None, Some(10)), sizes(Some(4), Some(3)), sizes(Some(99), None)],
        ),
        24
    );
}

#[test]
fn download_records_round_trip_in_managed_online_storage() {
    let blob =
        RemoteBlob { oid: "ab".repeat(32), size_bytes: 42, file: "model-Q4_K_M.gguf".into() };
    let mut remote = remote("owner/repo", "model-Q4_K_M.gguf", vec![blob]);
    remote.downloads = 10;
    remote.likes = 2;
    let record = DownloadJobRecord::new(
        "online:huggingface:owner/repo:model-Q4_K_M.gguf".into(),
        "owner/repo/model-Q4_K_M.gguf".into(),
        remote,
    );
    assert!(record.is_current());
    let path = download_record_path("/root", &record.model_id);
    let dir = download_records_dir("/root");
    assert_eq!(path.rsplit_once('/').unwrap().0, dir);
    assert!(path.ends_with(".json"));
    let files = vec![format!("{dir}/b.json"), format!("{dir}/note.txt"), path.clone()];
    let mut sorted = vec![format!("{dir}/b.json"), path];
    sorted.sort();
    assert_eq!(record_files(&files), sorted);
    assert_eq!(record.remote.blobs[0].size_bytes, 42);
}

// --- artifacts ---------------------------------------------------------------

#[test]
fn artifacts_group_shards_and_materialize_profile_leaf() {
    let detail = RepositoryDetail {
        fetched_at: 42,
        repository: repository("owner/repo", 12, 3),
        siblings: vec![
            sibling("model-Q4_K_M-00001-of-00002.gguf", "aa", 10),
            sibling("model-Q4_K_M-00002-of-00002.gguf", "bb", 11),
            sibling("mtp-model.gguf", "cc", 4),
            sibling("MTP/mtp-model-Q4_0.gguf", "cc", 4),
            sibling("MTP/mtp-model-F16.gguf", "dd", 8),
            sibling("mmproj-F16.gguf", "ee", 5),
            sibling("mmproj-BF16.gguf", "ff", 5),
        ],
        gguf: Some(HeaderInfo {
            architecture: Some("llama".into()),
            context_length: Some(32768),
            chat_template: Some("template".into()),
        }),
    };
    let models = uncached(&detail);
    let repository = repository_directory("/root", &detail.repository);
    assert_eq!(repository.catalog_path, vec!["online", "huggingface", "owner/repo"]);
    assert_eq!(repository.display_label(), "owner/repo");
    assert_eq!(models.len(), 1);
    assert_eq!(models[0].size_bytes, 21);
    let remote = models[0].remote.as_ref().unwrap();
    assert_eq!(remote.blobs.len(), 4);
    assert_eq!(remote.mtp_file.as_deref(), Some("mtp-model.gguf"));
    assert_eq!(remote.projector_file.as_deref(), Some("mmproj-BF16.gguf"));
    assert!(models[0].supports_mtp());
    assert!(models[0].supports_multimodal());
    assert_eq!(models[0].name, "model-Q4_K_M.gguf");
    assert_eq!(models[0].context_length, Some(32768));
    assert_eq!(
        models[0].catalog_path,
        vec!["online", "huggingface", "owner/repo", "model-Q4_K_M.gguf"]
    );
    assert_eq!(models[0].profile_key(), "hf:owner/repo/model-Q4_K_M-00001-of-00002.gguf");
    assert!(models[0].catalog_dir.starts_with("/root/online/huggingface/owner/repo/"));
    assert_eq!(repository_list_path("/root"), "/root/online/huggingface/.repositories.json");
}

#[test]
fn dflash_drafter_is_paired_with_every_quantization_and_hidden() {
    let detail = RepositoryDetail {
        fetched_at: 42,
        repository: repository("unsloth/Muse-Glimmer-30B-GGUF", 12, 3),
        siblings: vec![
            sibling("Muse-Glimmer-30B-UD-Q8_K_XL.gguf", "aa", 32),
            sibling("Muse-Glimmer-30B-UD-Q4_K_XL.gguf", "bb", 17),
            sibling("dflash-kquant.gguf", "cc", 2),
            sibling("dflash-Q8_0.gguf", "dd", 3),
            sibling("mmproj-Muse-Glimmer-30B-Q8_0.gguf", "ee", 1),
            sibling("mmproj-Muse-Glimmer-30B-BF16.gguf", "ff", 2),
        ],
        gguf: Some(HeaderInfo {
            architecture: Some("muse-glimmer".into()),
            context_length: Some(131072),
            chat_template: Some("template".into()),
        }),
    };

    let models = uncached(&detail);

    assert_eq!(models.len(), 2);
    for model in &models {
        let remote = model.remote.as_ref().unwrap();
        assert_eq!(remote.dflash_file.as_deref(), Some("dflash-kquant.gguf"));
        assert_eq!(remote.projector_file.as_deref(), Some("mmproj-Muse-Glimmer-30B-BF16.gguf"));
        assert!(model.supports_dflash());
        assert!(model.supports_multimodal());
        assert!(remote.mtp_file.is_none());
        assert!(remote.blobs.iter().any(|blob| blob.file == "dflash-kquant.gguf"));
    }
}

#[test]
fn split_artifact_is_cached_only_after_every_shard_exists() {
    let detail = RepositoryDetail {
        fetched_at: 42,
        repository: repository("owner/repo", 0, 0),
        siblings: vec![
            sibling("model-00001-of-00002.gguf", "aa", 10),
            sibling("model-00002-of-00002.gguf", "bb", 11),
        ],
        gguf: None,
    };
    let first = cached_file_in("/hub", "owner/repo", "abc", "model-00001-of-00002.gguf");
    let second = cached_file_in("/hub", "owner/repo", "abc", "model-00002-of-00002.gguf");

    let partial = artifacts_with_cache("/root", &detail, vec![Some(first.clone()), None], None);
    assert!(partial[0].path.is_empty());
    assert!(partial[0].shard_paths.is_empty());

    let held = vec![Some(first.clone()), Some(second.clone())];
    let complete = artifacts_with_cache("/root", &detail, held, None);
    assert_eq!(complete[0].path, first);
    assert_eq!(complete[0].shard_paths, vec![first, second]);
}

#[test]
fn cached_online_companions_become_local_launch_paths() {
    let plain = |name: &str, size| Sibling { rfilename: name.into(), size: Some(size), lfs: None };
    let detail = RepositoryDetail {
        fetched_at: 42,
        repository: repository("owner/repo", 0, 0),
        siblings: vec![
            plain("model-Q4_K_M.gguf", 10),
            plain("mtp-model.gguf", 4),
            plain("mmproj-BF16.gguf", 5),
        ],
        gguf: None,
    };
    let at = |file: &str| cached_file_in("/hub", "owner/repo", "abc", file);
    let cached = detail.siblings.iter().map(|s| Some(at(&s.rfilename))).collect();

    let models = artifacts_with_cache("/root", &detail, cached, None);
    assert_eq!(models.len(), 1);
    assert_eq!(models[0].path, at("model-Q4_K_M.gguf"));
    assert_eq!(models[0].mtp_path, Some(at("mtp-model.gguf")));
    assert_eq!(models[0].projector_path, Some(at("mmproj-BF16.gguf")));
}

#[test]
fn companions_are_told_by_their_names() {
    assert!(is_mtp_companion("MTP/mtp-x.gguf") && is_dflash_companion("dflash-Q8_0.gguf"));
    assert!(is_projector_companion("mmproj-F16.gguf") && is_companion("mmproj-F16.gguf"));
    assert!(!is_companion("model-Q4.gguf"));
    let files = texts(&["m.gguf", "mmproj-F16.gguf", "mmproj-BF16.gguf"]);
    assert_eq!(matching_projector_companion(&files), Some(2));
}

// --- deletion ----------------------------------------------------------------

fn repo_dir(repo: &str) -> String {
    format!("/hub/models--{}", repo.replace('/', "--"))
}

/// A number that stands for where the file at a path is stored.
fn inode_of(path: &str) -> u64 {
    path.bytes().fold(7, |n: u64, b| n.wrapping_mul(31).wrapping_add(u64::from(b)))
}

/// What a cache holds of a repository: a blob for each file, and the link in the
/// snapshot that names it.
fn fake_hub(repo: &str, revision: &str, files: &[(&str, &str, u64)]) -> DiskFacts {
    let dir = repo_dir(repo);
    let mut facts = Vec::new();
    for (name, oid, size) in files {
        let blob = format!("{dir}/blobs/{oid}");
        facts.push(FileFact {
            path: format!("{dir}/snapshots/{revision}/{name}"),
            symlink: true,
            target: Some(blob.clone()),
            canonical: blob.clone(),
            bytes: 0,
            device: 1,
            inode: inode_of(&blob),
            links: 1,
        });
        facts.push(FileFact {
            path: blob.clone(),
            symlink: false,
            target: None,
            canonical: blob.clone(),
            bytes: *size,
            device: 1,
            inode: inode_of(&blob),
            links: 1,
        });
    }
    DiskFacts { present: true, main_ref: Some(revision.into()), files: facts }
}

fn artifact(repo: &str, file: &str, blobs: &[(&str, &str, u64)]) -> Model {
    let snapshot = format!("{}/snapshots/abc/{file}", repo_dir(repo));
    let blobs = blobs
        .iter()
        .map(|(name, oid, size)| RemoteBlob {
            oid: (*oid).into(),
            size_bytes: *size,
            file: (*name).into(),
        })
        .collect();
    let mut remote = remote(repo, file, blobs);
    remote.projector_file = Some("mmproj.gguf".into());
    Model {
        id: format!("hf:{repo}/{file}"),
        name: file.into(),
        path: snapshot.clone(),
        shard_paths: vec![snapshot],
        mtp_path: None,
        dflash_path: None,
        dflash_block_size: None,
        projector_path: None,
        has_mtp: false,
        catalog_path: texts(&["online", "huggingface", repo, file]),
        catalog_dir: String::new(),
        size_bytes: 0,
        quantization: None,
        architecture: None,
        context_length: None,
        modified: None,
        has_chat_template: false,
        remote: Some(remote),
        flm: None,
        hub: None,
        folder: false,
        runtime: "llama.cpp".into(),
    }
}

#[test]
fn deleting_the_last_artifact_takes_its_blobs_and_the_repository_directory() {
    let (a, f) = ("aa".repeat(32), "ff".repeat(32));
    let files = [("model-Q4.gguf", a.as_str(), 10), ("mmproj.gguf", f.as_str(), 5)];
    let disk = fake_hub("owner/repo", "abc", &files);
    let model = artifact("owner/repo", "model-Q4.gguf", &files);

    let plan = deletion_in("/hub", &model, &vec![model.clone()], &disk).expect("a cached plan");
    assert_eq!(plan.bytes, 15);
    let husk = plan.husk.expect("nothing else is cached in this repository");
    assert_eq!(husk.dir, repo_dir("owner/repo"), "the repository cache should be gone");
    for fact in &disk.files {
        assert!(plan.files.contains(&fact.path));
    }
}

#[test]
fn a_projector_another_cached_quantization_uses_is_left_alone() {
    let (a, b, f) = ("aa".repeat(32), "bb".repeat(32), "ff".repeat(32));
    let projector = ("mmproj.gguf", f.as_str(), 5);
    let q4 = ("model-Q4.gguf", a.as_str(), 10);
    let q8 = ("model-Q8.gguf", b.as_str(), 20);
    let disk = fake_hub("owner/repo", "abc", &[q4, q8, projector]);
    let target = artifact("owner/repo", "model-Q4.gguf", &[q4, projector]);
    let other = artifact("owner/repo", "model-Q8.gguf", &[q8, projector]);

    let plan =
        deletion_in("/hub", &target, &vec![target.clone(), other], &disk).expect("a cached plan");
    let blobs = format!("{}/blobs", repo_dir("owner/repo"));
    assert!(
        !plan.files.contains(&format!("{blobs}/{f}")),
        "the shared projector is not planned for removal"
    );
    assert_eq!(plan.bytes, 10, "only the Q4 blob is this artifact's to free");
    assert!(plan.husk.is_none(), "the repository still holds a cached artifact");
    assert!(plan.files.contains(&format!("{blobs}/{a}")));
    assert!(!plan.files.contains(&format!("{blobs}/{b}")));
}

#[test]
fn a_stale_catalog_revision_still_plans_against_what_is_cached() {
    let (a, c) = ("aa".repeat(32), "cc".repeat(32));
    let on_disk = ("model-Q4.gguf", a.as_str(), 10);
    let mut disk = fake_hub("owner/repo", "abc", &[on_disk]);
    let fresh_blob = format!("{}/blobs/{c}", repo_dir("owner/repo"));
    disk.files.push(FileFact {
        path: fresh_blob.clone(),
        symlink: false,
        target: None,
        canonical: fresh_blob.clone(),
        bytes: 99,
        device: 1,
        inode: inode_of(&fresh_blob),
        links: 1,
    });

    let mut model = artifact("owner/repo", "model-Q4.gguf", &[on_disk]);
    let remote = model.remote.as_mut().unwrap();
    remote.revision = Some("def".into());
    remote.blobs[0].oid = c;

    let plan = deletion_in("/hub", &model, &vec![model.clone()], &disk).expect("a cached plan");
    assert_eq!(plan.bytes, 10, "the cached revision's blob, not the fresh one");
    assert!(
        plan.files.contains(&format!("{}/blobs/{a}", repo_dir("owner/repo"))),
        "{:?}",
        plan.files
    );
    assert!(!plan.files.contains(&fresh_blob), "another revision's blob is not ours");
}

#[test]
fn a_blob_with_another_name_frees_nothing() {
    let (a, b) = ("aa".repeat(32), "bb".repeat(32));
    let files = [("model-Q4.gguf", a.as_str(), 1000), ("mmproj-F16.gguf", b.as_str(), 30)];
    let mut disk = fake_hub("owner/repo", "abc", &files);
    disk.files[1].links = 2;
    let model = artifact("owner/repo", "model-Q4.gguf", &files);
    let plan = deletion_in("/hub", &model, &vec![model.clone()], &disk).expect("a cached plan");
    assert_eq!(plan.files.len(), 4);
    assert_eq!(plan.bytes, 30, "the other name keeps the larger file");
    let same = (disk.files[1].device, disk.files[1].inode);
    (disk.files[3].device, disk.files[3].inode) = same;
    disk.files[3].links = 2;
    disk.files[3].bytes = 1000;
    let plan = deletion_in("/hub", &model, &vec![model.clone()], &disk).expect("a cached plan");
    assert_eq!(plan.bytes, 1000, "both names go, and the file is counted once");
}

#[test]
fn a_relative_snapshot_link_and_its_blob_are_counted_once() {
    let oid = "aa".repeat(32);
    let files = [("model-Q4.gguf", oid.as_str(), 1000)];
    let mut disk = fake_hub("owner/repo", "abc", &files);
    let dir = repo_dir("owner/repo");
    let spelled = format!("{dir}/snapshots/abc/../../blobs/{oid}");
    disk.files[0].target = Some(spelled.clone());
    let blob = format!("{dir}/blobs/{oid}");
    disk.files.push(FileFact {
        path: spelled,
        symlink: false,
        target: None,
        canonical: blob.clone(),
        bytes: 1000,
        device: 1,
        inode: inode_of(&blob),
        links: 1,
    });

    let model = artifact("owner/repo", "model-Q4.gguf", &files);
    let plan = deletion_in("/hub", &model, &vec![model.clone()], &disk).expect("a cached plan");
    assert_eq!(plan.bytes, 1000, "one file, counted once");
    assert!(plan.husk.is_some());
}

#[test]
fn an_artifact_that_was_never_downloaded_has_nothing_to_delete() {
    let a = "aa".repeat(32);
    let files = [("model-Q4.gguf", a.as_str(), 10)];
    let other = artifact("owner/other", "model-Q4.gguf", &files);
    let disk = DiskFacts { present: false, main_ref: None, files: Vec::new() };
    assert!(deletion_in("/hub", &other, &vec![other.clone()], &disk).is_none());
}

#[test]
fn companions_are_ranked_by_how_well_they_fit() {
    let files = texts(&[
        "Model-Q4_K_M.gguf",
        "mtp-Model.gguf",
        "mtp-Model-Q4_K_M.gguf",
        "mtp-Other.gguf",
        "mmproj-BF16.gguf",
        "mmproj-F16.gguf",
    ]);
    assert_eq!(matching_mtp_companion("Model-Q4_K_M.gguf", &files), Some(2));
    assert_eq!(matching_mtp_companion("Else-Q4_K_M.gguf", &texts(&["mtp-Other.gguf"])), None);
    assert_eq!(matching_dflash_companion(&files), None);
    assert_eq!(parent_path("a/b/c.gguf"), "a/b");
    assert_eq!(parent_path("c.gguf"), "");
    assert_eq!(strip_suffix_ascii_case("M.GGUF", ".gguf").as_deref(), Some("M"));
    assert_eq!(strip_suffix_ascii_case("M.bin", ".gguf"), None);
    assert_eq!(remote_revision(&remote("o/r", "f", Vec::new())), "abc");
    assert_eq!(repo_cache_dir("/hub", "o/r"), "/hub/models--o--r");
}

#[test]
fn the_most_compact_drafter_is_preferred() {
    let pick = |files: &[&str]| matching_dflash_companion(&texts(files));
    assert_eq!(pick(&["dflash-Q4_K_M.gguf", "dflash-F16.gguf"]), Some(0));
    assert_eq!(pick(&["dflash-F16.gguf", "dflash-Q4_K_M.gguf"]), Some(1));
    assert_eq!(pick(&["dflash-Q6_K.gguf", "dflash-IQ4_XS.gguf", "dflash-Q8_0.gguf"]), Some(1));
    assert_eq!(pick(&["dflash-Q4_K_M.gguf", "dflash-Q4_0.gguf"]), Some(1));
    assert_eq!(pick(&["dflash-F16.gguf", "dflash-BF16.gguf", "dflash-F32.gguf"]), Some(1));
    assert_eq!(pick(&["dflash-Q2_K.gguf", "dflash.gguf"]), Some(1), "the publisher's own");
    assert_eq!(label_bits("MXFP4"), 4);
    assert_eq!(label_bits("BF16"), 16);
    assert_eq!(label_bits("none"), MANY_BITS);
}

#[test]
fn heads_are_preferred_in_the_usual_order() {
    let pick = |files: &[&str]| matching_mtp_companion("M-Q2_K.gguf", &texts(files));
    assert_eq!(pick(&["mtp-M-Q5_K_M.gguf", "mtp-M-F16.gguf"]), Some(1));
    assert_eq!(pick(&["mtp-M-Q6_K.gguf", "mtp-M-Q8_0.gguf"]), Some(1));
    assert_eq!(pick(&["mtp-M-F16.gguf", "mtp-M-BF16.gguf"]), Some(1));
    assert_eq!(pick(&["mtp-M-BF16.gguf", "mtp-M-Q8_0.gguf"]), Some(1));
    assert_eq!(pick(&["mtp-M-Q8_0.gguf", "mtp-M-q4_0.gguf"]), Some(1));
    assert_eq!(pick(&["a/mtp-M-Q4_0.gguf", "a/mtp-M.gguf"]), Some(1), "the publisher's own");
    assert_eq!(pick(&["mtp-M-Q6_K.gguf", "mtp-M-Q3_K_S.gguf"]), Some(1), "else the first name");
}

#[test]
fn pruning_goes_from_the_deepest_directory_upwards() {
    let (a, b) = ("aa".repeat(32), "bb".repeat(32));
    let files = [("top/m-1.gguf", a.as_str(), 10), ("top/deep/m-2.gguf", b.as_str(), 5)];
    let disk = fake_hub("owner/repo", "abc", &files);
    let model = artifact("owner/repo", "top/m-1.gguf", &files);
    let catalog = vec![model.clone()];
    assert!(deletion_fits_in("/hub", &model, &catalog, &disk));
    let plan = deletion_in("/hub", &model, &catalog, &disk).unwrap();
    let dir = repo_dir("owner/repo");
    assert_eq!(
        plan.prune,
        [
            format!("{dir}/snapshots/abc/top/deep"),
            format!("{dir}/snapshots/abc/top"),
            format!("{dir}/snapshots/abc"),
            format!("{dir}/snapshots"),
            format!("{dir}/blobs"),
        ]
    );
    let huge = [("a.gguf", a.as_str(), u64::MAX), ("b.gguf", b.as_str(), 1)];
    let disk = fake_hub("owner/repo", "abc", &huge);
    let model = artifact("owner/repo", "a.gguf", &huge);
    assert!(!deletion_fits_in("/hub", &model, &vec![model.clone()], &disk));
    let one = artifact("owner/repo", "b.gguf", &huge[1..]);
    assert!(deletion_fits_in("/hub", &one, &vec![one.clone()], &disk), "only what is planned");
}

#[test]
fn sizes_have_to_fit_artifact_by_artifact() {
    let detail = |siblings| RepositoryDetail {
        fetched_at: 1,
        repository: repository("o/r", 0, 0),
        siblings,
        gguf: None,
    };
    let apart = vec![sibling("a.gguf", "aa", u64::MAX), sibling("b.gguf", "bb", 2)];
    assert!(artifact_sizes_fit(&detail(apart)));
    let together = vec![
        sibling("m-00001-of-00002.gguf", "aa", u64::MAX),
        sibling("m-00002-of-00002.gguf", "bb", 2),
    ];
    assert!(!artifact_sizes_fit(&detail(together)));
    let listed = |siblings: Vec<Sibling>| {
        let cached = siblings.iter().map(|_| None).collect();
        let detail = Some(CachedDetail { schema: 2, detail: detail(siblings), cached, block_size: None });
        vec![Listed { repository: repository("o/r", 0, 0), detail }]
    };
    let one = load_fitting("/root", listed(vec![sibling("a.gguf", "aa", 7)])).unwrap();
    assert_eq!(one.last().map(|m| m.size_bytes), Some(7));
    let never = vec![
        sibling("m-00001-of-00002.gguf", "aa", u64::MAX),
        sibling("m-00002-of-00002.gguf", "bb", 2),
    ];
    assert!(load_fitting("/root", listed(never)).is_none());
}
