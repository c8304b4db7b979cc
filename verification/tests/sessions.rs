use class_pollution_detection::config::{
    AllowedRepos, DatasetConfig, GitHubSrc, RepositoryConfig, RepositoryMeta, RepositorySrc,
    ResolveDependenciesOpts,
};
use class_pollution_detection::labeling::{find_analysis_directory, Labeling};
use class_pollution_detection::summary::Summary;
use class_pollution_detection::temp::Temp;

fn names(list: &[&str]) -> Vec<String> {
    list.iter().map(|s| s.to_string()).collect()
}

#[test]
fn lookup_resolves_most_recent_matching_prefix() {
    let listing = names(&["proj.100", "proj.200", "projX.50"]);
    let r = find_analysis_directory(&listing, "proj");
    assert_eq!(r, Some(1));
    assert_eq!(listing[r.unwrap()], "proj.200");
}

#[test]
fn lookup_does_not_confuse_longer_identifiers() {
    let listing = names(&["proj.100", "proj.200", "projX.50"]);
    let r = find_analysis_directory(&listing, "projX");
    assert_eq!(r, Some(2));
    assert_eq!(listing[r.unwrap()], "projX.50");
}

#[test]
fn lookup_misses_cleanly() {
    let listing = names(&["proj.100", "proj.200"]);
    assert_eq!(find_analysis_directory(&listing, "other"), None);
    let empty: Vec<String> = vec![];
    assert_eq!(find_analysis_directory(&empty, "proj"), None);
    // a prefix of an identifier is not a match
    assert_eq!(find_analysis_directory(&listing, "pro"), None);
}

#[test]
fn allow_list_membership() {
    let all = AllowedRepos::new_all();
    assert!(all.is_allowed("anything"));

    let filtered = AllowedRepos::new_filtered(names(&["zeta", "alpha", "mid"]));
    assert!(filtered.is_allowed("alpha"));
    assert!(filtered.is_allowed("mid"));
    assert!(filtered.is_allowed("zeta"));
    assert!(!filtered.is_allowed("beta"));
    assert!(!filtered.is_allowed(""));
}

fn dataset(ids: &[&str]) -> DatasetConfig {
    DatasetConfig {
        resolve_dependencies_opts: ResolveDependenciesOpts {
            denylisted_packages: vec![],
            additional_wheel_repos: vec![],
        },
        repos: ids
            .iter()
            .map(|id| RepositoryConfig {
                id: id.to_string(),
                src: RepositorySrc::GitHub(GitHubSrc {
                    full_name: format!("owner/{}", id),
                    rev: "main".to_string(),
                    basedir: None,
                }),
                extra_dependencies: vec![],
                meta: RepositoryMeta {
                    repo_url: None,
                    stars: Some(1),
                    downloads: None,
                    homepage: None,
                },
            })
            .collect(),
    }
}

#[test]
fn sessions_restrict_to_the_dataset() {
    let d = dataset(&["beta", "alpha"]);
    let labeling = Labeling::new("/work".to_string(), Some(&d));
    assert_eq!(labeling.work_dir, "/work");
    assert!(labeling.allowed_repos.is_allowed("alpha"));
    assert!(labeling.allowed_repos.is_allowed("beta"));
    assert!(!labeling.allowed_repos.is_allowed("gamma"));

    let temp = Temp::new("/work".to_string(), None);
    assert!(temp.allowed_repos.is_allowed("gamma"));

    let summary = Summary::new("/tmp/w".to_string(), Some(&d));
    assert_eq!(summary.work_dir, "/tmp/w");
    assert!(!summary.allowed_repos.is_allowed("delta"));
}
