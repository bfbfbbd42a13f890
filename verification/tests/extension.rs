use zed_java::extension::bazel::{Bazel, BazelStep};
use zed_java::extension::config::{
    check_updates_mode, configured_jdtls_data_directory, expand_home_path, get_bazel_path,
    get_check_updates, get_gradle_bridge_path, get_java_debug_jar, get_java_home,
    get_jdtls_data_directory, get_jdtls_launcher, get_lombok_jar, get_lsp_proxy_path,
    get_max_memory, get_min_memory, is_absolute_data_directory, is_java_autodownload,
    is_lombok_enabled, validate_jdtls_data_directory, CheckUpdates,
};
use zed_java::extension::downloadable::{after_download, after_fetch, first_step, newest, InstallStep};
use zed_java::extension::gradle_ls::{
    download_step, find_supported_installation, fixed_step, moved_step, unpacked_step, version_for_download,
    GradleLs, GradleLsStep,
};
use zed_java::extension::jdtls::{
    after_failed_move, build_jdtls_launch_args, find_equinox_launcher, get_binary_name,
    get_jdtls_data_path, get_sha1_hex, get_shared_config_directory_name, 
    installed_jdtls_version, is_complete_jdtls_install, jdtls_binary_path, jdtls_download_url,
    jdtls_staging_path, launch_java, lombok_jar_name, lombok_url, milestone_url,
    parse_memory_value, promote_staged_jdtls, removal_of_old_installations, staging_path,
    lombok_downloaded, lombok_step, InstallAction, InstallEvent, InstallFiles, InstallPhase, Jdtls,
    JdtlsEntry, JdtlsInstallation, LaunchJava, Lombok, LombokEntry, LombokStep, PromoteStep,
};
use zed_java::extension::native::{downloaded_step, executable_step, Found, GradleBridge, NativeStep, Proxy};
use zed_java::extension::platform::{
    get_java_exec_name, platform_asset_name, platform_exec_name, Architecture, Os, Packing,
};
use zed_java::extension::util::{
    extension_release_version, find_native_binary, find_native_binary_in, fresh_cached_version,
    fresh_cached_version_at, get_java_executable, get_java_major_version, get_tag_at, github_token,
    first_major_version, has_checked_once, latest_versions, path_step,
    path_to_file_uri, record_step, removal_of_other_directories, removal_of_others,
    should_use_local_or_download, tags_response, tags_url, temporary_record_name,
    update_check_path, ArgsStringOrList, EntryKind, JavaSource, PathState, PathStep, RecordEvent,
    RecordStep, Removal, UpdateCheckRecord, UPDATE_CHECK_TTL_SECONDS,
};
use zed_java::json::Json;
use zed_java::uri;

fn json(source: &str) -> Json {
    Json::parse(source.as_bytes()).unwrap()
}

fn strings(items: &[&str]) -> Vec<String> {
    items.iter().map(|item| item.to_string()).collect()
}

fn environment(items: &[(&str, &str)]) -> Vec<(String, String)> {
    items.iter().map(|(name, value)| (name.to_string(), value.to_string())).collect()
}

fn record(version: &str, checked_at_unix_seconds: u64) -> Option<UpdateCheckRecord> {
    Some(UpdateCheckRecord { version: version.to_string(), checked_at_unix_seconds })
}

#[test]
fn configured_data_directory_distinguishes_absent_configuration() {
    assert_eq!(configured_jdtls_data_directory(&None), Ok(None));
    assert_eq!(configured_jdtls_data_directory(&Some(json("{}"))), Ok(None));
}

#[test]
fn configured_data_directory_accepts_non_empty_strings() {
    let configuration = Some(json(r#"{ "data_directory": "/tmp/jdtls" }"#));

    assert_eq!(
        configured_jdtls_data_directory(&configuration),
        Ok(Some("/tmp/jdtls".to_string()))
    );
}

#[test]
fn configured_data_directory_rejects_empty_values() {
    let empty_error =
        configured_jdtls_data_directory(&Some(json(r#"{ "data_directory": "" }"#))).unwrap_err();
    let whitespace_error =
        configured_jdtls_data_directory(&Some(json(r#"{ "data_directory": "  " }"#))).unwrap_err();

    assert_eq!(empty_error, "JDTLS data_directory must not be empty");
    assert_eq!(whitespace_error, "JDTLS data_directory must not be empty");
}

#[test]
fn configured_data_directory_rejects_non_string_values() {
    let error =
        configured_jdtls_data_directory(&Some(json(r#"{ "data_directory": true }"#))).unwrap_err();

    assert_eq!(error, "JDTLS data_directory must be a string");
}

#[test]
fn data_directory_validation_rejects_relative_paths() {
    assert_eq!(
        validate_jdtls_data_directory("tmp/jdtls".to_string(), Os::Linux),
        Err("JDTLS data_directory must be an absolute path: tmp/jdtls".to_string())
    );
    assert_eq!(
        validate_jdtls_data_directory(r"Opt\zed-jdtls".to_string(), Os::Windows),
        Err(r"JDTLS data_directory must be an absolute path: Opt\zed-jdtls".to_string())
    );
}

#[test]
fn data_directory_requires_platform_absolute_paths() {
    assert!(is_absolute_data_directory("/tmp/jdtls", Os::Linux));
    assert!(!is_absolute_data_directory("tmp/jdtls", Os::Linux));
    assert!(is_absolute_data_directory(r"C:\Opt\zed-jdtls", Os::Windows));
    assert!(is_absolute_data_directory("C:/Opt/zed-jdtls", Os::Windows));
    assert!(is_absolute_data_directory(r"\\server\share\zed-jdtls", Os::Windows));
    assert!(!is_absolute_data_directory(r"Opt\zed-jdtls", Os::Windows));
}

#[test]
fn the_data_directory_is_expanded_and_checked() {
    let home = environment(&[("HOME", "/h")]);
    let configuration = Some(json(r#"{ "data_directory": "~/d" }"#));
    assert_eq!(
        get_jdtls_data_directory(&configuration, &home, Os::Linux),
        Ok(Some("/h/d".to_string()))
    );
    assert_eq!(
        get_jdtls_data_directory(&configuration, &vec![], Os::Mac),
        Err("Failed to expand JDTLS data_directory: Failed to expand ~".to_string())
    );
    assert_eq!(
        get_jdtls_data_directory(&configuration, &home, Os::Windows),
        Err("JDTLS data_directory must be an absolute path: ~/d".to_string())
    );
    assert_eq!(get_jdtls_data_directory(&None, &home, Os::Linux), Ok(None));
    assert!(get_jdtls_data_directory(&Some(json(r#"{ "data_directory": 1 }"#)), &home, Os::Linux)
        .is_err());
}

#[test]
fn test_check_updates_always_allows_download() {
    let result = should_use_local_or_download(&None, None, "jdtls", false).unwrap();
    assert!(result.is_none(), "Always mode should allow download");
}

#[test]
fn test_check_updates_always_with_local_still_downloads() {
    let local = "/mock/jdtls/1.44.0".to_string();
    let result = should_use_local_or_download(&None, Some(local), "jdtls", false).unwrap();
    assert!(result.is_none(), "Always mode downloads even with local");
}

#[test]
fn test_check_updates_never_with_local_uses_it() {
    let config = Some(json(r#"{"check_updates": "never"}"#));
    let local = "/mock/jdtls/1.44.0".to_string();
    let result =
        should_use_local_or_download(&config, Some(local.clone()), "jdtls", false).unwrap();
    assert_eq!(result, Some(local));
}

#[test]
fn test_check_updates_never_without_local_is_error() {
    let config = Some(json(r#"{"check_updates": "never"}"#));
    let result = should_use_local_or_download(&config, None, "jdtls", false);
    assert!(result.is_err());
    assert_eq!(
        result.unwrap_err(),
        "Update checks disabled (never) and no local installation found for jdtls"
    );
}

#[test]
fn test_check_updates_once_with_local_uses_it() {
    let config = Some(json(r#"{"check_updates": "once"}"#));
    let local = "/mock/jdtls/1.44.0".to_string();
    let result =
        should_use_local_or_download(&config, Some(local.clone()), "jdtls", false).unwrap();
    assert_eq!(result, Some(local));
}

#[test]
fn test_default_is_always() {
    let result = should_use_local_or_download(&None, None, "test", false).unwrap();
    assert!(result.is_none(), "Default should be Always (None)");
    assert_eq!(CheckUpdates::default(), CheckUpdates::Always);
}

#[test]
fn update_modes_are_read_in_any_case() {
    let mode = |mode: &str| get_check_updates(&Some(json(&format!(r#"{{"check_updates": "{mode}"}}"#))));
    assert_eq!(mode("ONCE"), CheckUpdates::Once);
    assert_eq!(mode("Never"), CheckUpdates::Never);
    assert_eq!(mode("sometimes"), CheckUpdates::Always);
    assert_eq!(get_check_updates(&Some(json(r#"{"check_updates": 1}"#))), CheckUpdates::Always);
    assert_eq!(check_updates_mode("Once"), CheckUpdates::Always);
}

#[test]
fn local_installation_only_accepts_supported_version() {
    let install_path = "/tmp/gradle-ls";
    assert_eq!(find_supported_installation(install_path, &strings(&["/tmp/gradle-ls/3.17.0/lib"])), None);
    assert_eq!(
        find_supported_installation(install_path, &strings(&["/tmp/gradle-ls/3.18.0/lib"])),
        Some("/tmp/gradle-ls/3.18.0".to_string())
    );
    assert_eq!(version_for_download(), "3.18.0");
}

#[test]
fn the_gradle_language_server_is_unpacked_and_moved() {
    match download_step("3.18.0", false) {
        GradleLsStep::Download { url, unpack_to } => {
            assert_eq!(
                url,
                "https://vscjava.gallery.vsassets.io/_apis/public/gallery/publisher/vscjava/extension/vscode-gradle/3.18.0/assetbyname/Microsoft.VisualStudio.Services.VSIXPackage"
            );
            assert_eq!(unpack_to, "gradle-ls/_vsix_temp");
        }
        _ => panic!("expected a download"),
    }
    match unpacked_step("3.18.0", Ok(()), true) {
        GradleLsStep::Move { from, to, unpacked } => {
            assert_eq!(from, "gradle-ls/_vsix_temp/extension/lib");
            assert_eq!(to, "gradle-ls/3.18.0/lib");
            assert_eq!(unpacked, "gradle-ls/_vsix_temp");
        }
        _ => panic!("expected a move"),
    }
    assert!(matches!(
        unpacked_step("3.18.0", Ok(()), false),
        GradleLsStep::CleanUp { error, .. }
            if error == "Downloaded VSIX does not contain expected extension/lib/ directory"
    ));
    assert!(matches!(
        unpacked_step("3.18.0", Err("x".to_string()), true),
        GradleLsStep::Fail(error) if error == "Failed to download Gradle LS VSIX: x"
    ));
    assert!(matches!(
        moved_step("3.18.0", Err("x".to_string())),
        GradleLsStep::Fail(error) if error == "Failed to move lib directory: x"
    ));
    for step in [moved_step("3.18.0", Ok(())), download_step("3.18.0", true)] {
        assert!(matches!(step, GradleLsStep::Use(path) if path == "gradle-ls/3.18.0"));
    }
}

fn files(binary: bool, config: bool, plugins: &[&str]) -> InstallFiles {
    InstallFiles {
        binary,
        config,
        plain_launcher: false,
        plugins: Ok(plugins.iter().map(|name| (Some(name.to_string()), true)).collect()),
    }
}

#[test]
fn incomplete_jdtls_install_is_not_reused() {
    let prefix = "jdtls";
    let version = "1.50.0";
    assert_eq!(installed_jdtls_version(prefix, version, &files(true, false, &[])), None);
    assert_eq!(
        installed_jdtls_version(
            prefix,
            version,
            &files(true, true, &["org.eclipse.equinox.launcher_1.0.0.jar"])
        ),
        Some("jdtls/1.50.0".to_string())
    );
    assert_eq!(jdtls_binary_path("jdtls/1.50.0", "jdtls"), "jdtls/1.50.0/bin/jdtls");
}

#[test]
fn the_launcher_is_found_by_its_name() {
    let mut found = files(
        true,
        true,
        &["a.jar", "org.eclipse.equinox.launcher_1.jar.txt", "org.eclipse.equinox.launcher_2.jar"],
    );
    assert_eq!(
        find_equinox_launcher("/b", &found),
        Ok("/b/plugins/org.eclipse.equinox.launcher_2.jar".to_string())
    );
    if let Ok(entries) = &mut found.plugins {
        entries[2].1 = false;
    }
    assert_eq!(find_equinox_launcher("/b", &found), Err("Cannot find equinox launcher".to_string()));
    assert!(!is_complete_jdtls_install(&found));
    found.plain_launcher = true;
    assert_eq!(
        find_equinox_launcher("/b", &found),
        Ok("/b/plugins/org.eclipse.equinox.launcher.jar".to_string())
    );
    found.plain_launcher = false;
    found.plugins = Err("gone".to_string());
    assert_eq!(
        find_equinox_launcher("/b", &found),
        Err("Failed to read plugins directory: gone".to_string())
    );
}

#[test]
fn complete_staging_install_replaces_incomplete_final_directory() {
    assert!(matches!(promote_staged_jdtls(true, false, true, "s"), PromoteStep::Replace));
    assert!(matches!(promote_staged_jdtls(true, false, false, "s"), PromoteStep::Move));
    assert!(matches!(promote_staged_jdtls(true, true, true, "s"), PromoteStep::RemoveStaging));
    assert!(matches!(
        promote_staged_jdtls(false, true, true, "s"),
        PromoteStep::Fail(error) if error == "Downloaded JDTLS installation is incomplete at s"
    ));
    assert!(matches!(after_failed_move(true, "s", "r"), PromoteStep::RemoveStaging));
    assert!(matches!(
        after_failed_move(false, "s", "r"),
        PromoteStep::Fail(error) if error == "Failed to promote JDTLS staging directory s: r"
    ));
}

#[test]
fn jdtls_cleanup_preserves_active_staging_directories() {
    let removal = |name: &str, kind| removal_of_old_installations(&Some(name.to_string()), kind, "1.50.0");
    assert_eq!(removal("1.50.0", EntryKind::Directory), Removal::Keep);
    assert_eq!(removal("1.49.0", EntryKind::Directory), Removal::Directory);
    assert_eq!(removal(".staging.tmp", EntryKind::Directory), Removal::Keep);
    assert_eq!(removal("1.49.0", EntryKind::File), Removal::Keep);
    assert_eq!(removal_of_old_installations(&None, EntryKind::Directory, "x"), Removal::Keep);
}

#[test]
fn staging_directories_are_new() {
    let mut taken = vec![false; 16];
    let digest = get_sha1_hex("1.50.0");
    assert_eq!(
        jdtls_staging_path("jdtls", "1.50.0", 7, &taken),
        Ok(format!("jdtls/.{digest}.7.0.tmp"))
    );
    taken[0] = true;
    taken[1] = true;
    assert_eq!(
        jdtls_staging_path("jdtls", "1.50.0", 7, &taken),
        Ok(staging_path("jdtls", "1.50.0", 7, 2))
    );
    assert_eq!(
        jdtls_staging_path("jdtls", "1.50.0", 7, &vec![true; 16]),
        Err("Failed to allocate a JDTLS staging directory for 1.50.0".to_string())
    );
    assert_eq!(get_sha1_hex("abc"), "a9993e364706816aba3e25717850c26c9cd0d89d");
}

#[test]
fn the_addresses_of_downloads_name_the_version() {
    assert_eq!(
        milestone_url("1.50.0"),
        "https://download.eclipse.org/jdtls/milestones/1.50.0/latest.txt"
    );
    assert_eq!(
        jdtls_download_url("1.50.0", "jdt-language-server-1.50.0.tar.gz\n"),
        "https://www.eclipse.org/downloads/download.php?file=/jdtls/milestones/1.50.0/jdt-language-server-1.50.0.tar.gz"
    );
    assert_eq!(lombok_jar_name("1.18.30"), "lombok-1.18.30.jar");
    assert_eq!(lombok_url("1.18.30"), "https://projectlombok.org/downloads/lombok-1.18.30.jar");
}

#[test]
fn memory_sizes_are_read_in_bytes() {
    assert_eq!(parse_memory_value("2G"), Some(2147483648));
    assert_eq!(parse_memory_value(" 512m "), Some(536870912));
    assert_eq!(parse_memory_value("1024k"), Some(1048576));
    assert_eq!(parse_memory_value("77"), Some(77));
    assert_eq!(parse_memory_value("G"), None);
    assert_eq!(parse_memory_value("1.5G"), None);
    assert_eq!(parse_memory_value(""), None);
    assert_eq!(parse_memory_value("17179869183G"), Some(18446744072635809792));
    assert_eq!(parse_memory_value("17179869184G"), None);
    assert_eq!(parse_memory_value("18446744073709551615"), Some(u64::MAX));
    assert_eq!(parse_memory_value("18446744073709551616"), None);
}

#[test]
fn the_language_server_is_started_with_an_ordered_heap() {
    let configuration = Some(json(r#"{"min_memory": "2G", "max_memory": "512m"}"#));
    let args = build_jdtls_launch_args(
        "java",
        "/c",
        &configuration,
        strings(&["-Dx=y"]),
        "l.jar",
        "/d",
        24,
    );
    assert_eq!(
        args,
        strings(&[
            "java",
            "-Declipse.application=org.eclipse.jdt.ls.core.id1",
            "-Dosgi.bundles.defaultStartLevel=4",
            "-Declipse.product=org.eclipse.jdt.ls.core.product",
            "-Dosgi.checkConfiguration=true",
            "-Dosgi.sharedConfiguration.area=/c",
            "-Dosgi.sharedConfiguration.area.readOnly=true",
            "-Dosgi.configuration.cascaded=true",
            "-Djava.import.generatesMetadataFilesAtProjectRoot=false",
            "-Djava.net.preferIPv4Stack=true",
            "-Xms512m",
            "-Xmx2G",
            "--add-modules=ALL-SYSTEM",
            "--add-opens",
            "java.base/java.util=ALL-UNNAMED",
            "--add-opens",
            "java.base/java.lang=ALL-UNNAMED",
            "-Dx=y",
            "-jar",
            "l.jar",
            "-data",
            "/d",
            "-Djdk.xml.maxGeneralEntitySizeLimit=0",
            "-Djdk.xml.totalEntitySizeLimit=0",
        ])
    );
    let plain = build_jdtls_launch_args("java", "/c", &None, vec![], "l.jar", "/d", 23);
    assert_eq!(plain.len(), 20);
    assert_eq!(plain[10], "-Xms1G");
    assert_eq!(plain.last().map(String::as_str), Some("/d"));
}

#[test]
fn an_old_java_is_replaced_or_refused() {
    assert!(matches!(launch_java(21, &None), LaunchJava::Found));
    assert!(matches!(launch_java(17, &None), LaunchJava::TooOld(error) if error.contains("version 21")));
    let configuration = Some(json(r#"{"jdk_auto_download": true}"#));
    assert!(matches!(launch_java(20, &configuration), LaunchJava::Download));
}

#[test]
fn data_goes_below_the_directory_for_caches() {
    let digest = get_sha1_hex("/w");
    let path = |variables: &[(&str, &str)], os| {
        get_jdtls_data_path(&environment(variables), os, "/w", Err("none".to_string()))
    };
    assert_eq!(
        path(&[("XDG_CACHE_HOME", "/x"), ("HOME", "/h")], Os::Linux),
        Ok(format!("/x/jdtls-{digest}"))
    );
    assert_eq!(path(&[("HOME", "/h")], Os::Linux), Ok(format!("/h/.cache/jdtls-{digest}")));
    assert_eq!(path(&[("HOME", "/h")], Os::Mac), Ok(format!("/h/Library/Caches/jdtls-{digest}")));
    assert_eq!(path(&[("APPDATA", "C:/a")], Os::Windows), Ok(format!("C:/a/jdtls-{digest}")));
    assert_eq!(
        path(&[("HOME", "/h")], Os::Windows),
        Err("Failed to get current directory: none".to_string())
    );
    assert_eq!(
        get_jdtls_data_path(&vec![], Os::Linux, "/w", Ok("/e".to_string())),
        Ok(format!("/e/caches/jdtls-{digest}"))
    );
}

#[test]
fn names_depend_on_the_platform() {
    assert_eq!(get_java_exec_name(Os::Windows), "java.exe");
    assert_eq!(get_java_exec_name(Os::Linux), "java");
    assert_eq!(platform_exec_name("x", Os::Mac), "x");
    assert_eq!(get_binary_name(Os::Windows), "jdtls.bat");
    assert_eq!(get_binary_name(Os::Mac), "jdtls");
    assert_eq!(
        get_shared_config_directory_name(Os::Mac, Architecture::Aarch64),
        "config_mac_arm"
    );
    assert_eq!(get_shared_config_directory_name(Os::Linux, Architecture::X8664), "config_linux");
    assert_eq!(get_shared_config_directory_name(Os::Windows, Architecture::Aarch64), "config_win");
    assert_eq!(
        platform_asset_name("java-lsp-proxy", Os::Mac, Architecture::Aarch64),
        Ok(("java-lsp-proxy-darwin-aarch64.tar.gz".to_string(), Packing::GzipTar))
    );
    assert_eq!(
        platform_asset_name("b", Os::Windows, Architecture::X8664),
        Ok(("b-windows-x86_64.zip".to_string(), Packing::Zip))
    );
    assert_eq!(
        platform_asset_name("b", Os::Linux, Architecture::X86),
        Err("Unsupported architecture".to_string())
    );
}

#[test]
fn update_check_is_fresh_for_less_than_24_hours() {
    assert_eq!(
        fresh_cached_version_at(record("1.2.3", 1_000), 1_000 + UPDATE_CHECK_TTL_SECONDS - 1),
        Some("1.2.3".to_string())
    );
}

#[test]
fn update_check_expires_at_24_hours() {
    assert_eq!(
        fresh_cached_version_at(record("1.2.3", 1_000), 1_000 + UPDATE_CHECK_TTL_SECONDS),
        None
    );
}

#[test]
fn future_update_check_timestamp_is_stale() {
    assert_eq!(fresh_cached_version_at(record("1.2.3", 2_000), 1_000), None);
}

#[test]
fn legacy_marker_is_stale_but_still_counts_for_once_mode() {
    let marker = Some(b"1.2.3".to_vec());
    assert_eq!(fresh_cached_version_at(None, 1_000), None);
    assert!(has_checked_once(&marker));

    let configuration = Some(json(r#"{ "check_updates": "once" }"#));
    assert!(
        should_use_local_or_download(&configuration, None, "test", has_checked_once(&marker))
            .is_err()
    );
}

#[test]
fn once_mode_ignores_update_check_record_freshness() {
    let marker = Some(br#"{"version":"1.2.3","checked_at_unix_seconds":1000}"#.to_vec());
    let configuration = Some(json(r#"{ "check_updates": "once" }"#));

    assert!(
        should_use_local_or_download(&configuration, None, "test", has_checked_once(&marker))
            .is_err()
    );
    assert_eq!(
        should_use_local_or_download(&configuration, None, "test", has_checked_once(&None)),
        Ok(None)
    );
}

#[test]
fn empty_versions_and_wrong_clocks_do_not_count() {
    assert_eq!(fresh_cached_version_at(record("", 1_000), 1_000), None);
    assert_eq!(fresh_cached_version(record("1.2.3", 1_000), None), None);
    assert_eq!(fresh_cached_version(None, Some(5)), None);
    assert_eq!(fresh_cached_version(record("1.2.3", 5), Some(5)), Some("1.2.3".to_string()));
    assert_eq!(update_check_path("jdtls"), "jdtls/.update_checked");
}

#[test]
fn records_are_written_through_new_temporary_files() {
    assert_eq!(temporary_record_name(".update_checked", 1000, 2), ".update_checked.1000.2.tmp");
    assert!(matches!(record_step(3, RecordEvent::AlreadyExists, "r", "t"), RecordStep::Create(4)));
    assert!(matches!(
        record_step(15, RecordEvent::AlreadyExists, "r", "t"),
        RecordStep::Fail(error) if error == "Failed to allocate a temporary update-check record for r"
    ));
    assert!(matches!(record_step(0, RecordEvent::Created, "r", "t"), RecordStep::Replace));
    assert!(matches!(record_step(0, RecordEvent::Replaced, "r", "t"), RecordStep::Done));
    assert!(matches!(
        record_step(0, RecordEvent::CreateFailed("e".to_string()), "r", "t"),
        RecordStep::Fail(error) if error == "Failed to create temporary update-check record t: e"
    ));
    assert!(matches!(
        record_step(0, RecordEvent::ReplaceFailed("e".to_string()), "r", "t"),
        RecordStep::CleanUp(error) if error == "Failed to replace update-check record r: e"
    ));
}

#[test]
fn directories_are_made_where_nothing_stands() {
    assert!(matches!(path_step(PathState::Directory, "p"), PathStep::Done));
    assert!(matches!(path_step(PathState::Missing, "p"), PathStep::Create));
    assert!(matches!(
        path_step(PathState::Other, "p"),
        PathStep::Fail(error) if error == "File exists but is not a path: p"
    ));
    assert!(matches!(
        path_step(PathState::Unknown("e".to_string()), "p"),
        PathStep::Fail(error) if error == "e"
    ));
}

#[test]
fn native_binary_discovery_ignores_other_extension_versions() {
    let release = extension_release_version("6.8.0");
    assert_eq!(release, "v6.8.0");
    let find = |entries: &[(&str, EntryKind)]| {
        let entries = entries.iter().map(|(path, kind)| (path.to_string(), *kind)).collect();
        find_native_binary_in("/r", "v6.8.0", "test-binary", &entries)
    };
    let old_binary = ("/r/v1.0.0/test-binary", EntryKind::File);
    assert_eq!(find(&[old_binary]), None);
    assert_eq!(
        find(&[old_binary, ("/r/v6.8.0/test-binary", EntryKind::Directory)]),
        None,
        "a directory at the binary path must not be accepted"
    );
    let current_binary = ("/r/v6.8.0/test-binary", EntryKind::File);
    assert_eq!(find(&[old_binary, current_binary]), Some("/r/v6.8.0/test-binary".to_string()));
    let development_binary = ("/r/test-binary", EntryKind::File);
    assert_eq!(
        find(&[old_binary, current_binary, development_binary]),
        Some("/r/test-binary".to_string())
    );
    assert_eq!(
        find_native_binary("v6.8.0", "x", &vec![("bin/v6.8.0/x".to_string(), EntryKind::File)]),
        Some("bin/v6.8.0/x".to_string())
    );
}

#[test]
fn native_cleanup_removes_old_versions_and_preserves_root_files() {
    let removal =
        |name: &str, kind| removal_of_other_directories(&Some(name.to_string()), kind, "v6.8.0");
    assert_eq!(removal("v6.8.0", EntryKind::Directory), Removal::Keep);
    assert_eq!(removal("v1.0.0", EntryKind::Directory), Removal::Directory);
    assert_eq!(removal("test-binary", EntryKind::File), Removal::Keep);
    assert_eq!(removal_of_other_directories(&None, EntryKind::Directory, "x"), Removal::Directory);
}

#[test]
fn all_other_entries_are_removed() {
    let removal = |name: &str, kind| removal_of_others(&Some(name.to_string()), kind, "a");
    assert_eq!(removal("a", EntryKind::File), Removal::Keep);
    assert_eq!(removal("b", EntryKind::File), Removal::File);
    assert_eq!(removal("b", EntryKind::Directory), Removal::Directory);
    assert_eq!(removal("b", EntryKind::Other), Removal::Keep);
    assert_eq!(removal_of_others(&None, EntryKind::File, "a"), Removal::File);
}

#[test]
fn github_token_prefers_github_token() {
    let env = vec![
        ("GH_TOKEN".to_string(), "gh".to_string()),
        ("GITHUB_TOKEN".to_string(), "github".to_string()),
    ];

    assert_eq!(github_token(&env), Some("github"));
}

#[test]
fn github_token_falls_back_to_gh_token() {
    let env = vec![
        ("GITHUB_TOKEN".to_string(), String::new()),
        ("GH_TOKEN".to_string(), "gh".to_string()),
    ];

    assert_eq!(github_token(&env), Some("gh"));
}

#[test]
fn github_token_ignores_missing_and_empty_tokens() {
    let env = vec![("GITHUB_TOKEN".to_string(), String::new())];

    assert_eq!(github_token(&env), None);
}

#[test]
fn versions_come_from_the_tags_of_a_repository() {
    let tags = tags_response(br#"[{"name": "v1.50.0"}, {"name": "v1.49.0"}, {}]"#).unwrap();
    assert_eq!(
        latest_versions(&tags),
        Ok(("1.50.0".to_string(), Some("1.49.0".to_string())))
    );
    assert_eq!(get_tag_at(&tags, 2), None);
    assert_eq!(get_tag_at(&tags, 3), None);
    assert_eq!(latest_versions(&json("{}")), Err("Malformed GitHub tags response".to_string()));
    for body in [
        r#"[{"name":""}]"#,
        r#"[{"name": "ä1"}]"#,
        r#"[{"name": 1}]"#,
        r#"[{"name": "v2"}, {"name": ""}]"#,
    ] {
        assert_eq!(latest_versions(&json(body)), Err("Malformed GitHub tags response".to_string()));
    }
    assert_eq!(get_tag_at(&json(r#"[{"name": ""}]"#), 0), None);
    assert_eq!(
        latest_versions(&json(r#"[{"name": "v2"}, {}]"#)),
        Ok(("2".to_string(), None))
    );
    assert!(tags_response(b"<html>")
        .unwrap_err()
        .starts_with("Failed to deserialize GitHub tags response: "));
    assert_eq!(tags_url("a/b"), "https://api.github.com/repos/a/b/tags");
}

#[test]
fn java_says_its_version() {
    assert_eq!(get_java_major_version("openjdk version \"21.0.2\" 2024-01-16"), Ok(21));
    assert_eq!(get_java_major_version("java version \"1.8.0_392\""), Ok(1));
    assert_eq!(
        get_java_major_version("version \"99999999999\" then version \"17\""),
        Ok(17)
    );
    assert_eq!(
        get_java_major_version("no version"),
        Err("Failed to determine Java major version".to_string())
    );
    assert_eq!(
        first_major_version(&vec![None, Some("x".to_string()), Some("11".to_string())]),
        Some(11)
    );
    assert_eq!(first_major_version(&vec![Some("4294967296".to_string())]), None);
}

#[test]
fn java_is_looked_for_in_order() {
    let variables = environment(&[("HOME", "/h"), ("JAVA_HOME", "/env")]);
    let configured = Some(json(r#"{"java_home": "~/jdk"}"#));
    let program = |configuration: &Option<Json>, variables: &Vec<(String, String)>, os, on_path| {
        match get_java_executable(configuration, variables, os, on_path) {
            JavaSource::Program(program) => program,
            JavaSource::Download => "download".to_string(),
            JavaSource::Missing(error) => error,
        }
    };
    assert_eq!(program(&configured, &variables, Os::Linux, None), "/h/jdk/bin/java");
    assert_eq!(program(&None, &variables, Os::Linux, None), "/env/bin/java");
    assert_eq!(
        program(&None, &vec![], Os::Windows, Some("C:/java.exe".to_string())),
        "C:/java.exe"
    );
    assert_eq!(
        program(&Some(json(r#"{"jdk_auto_download": true}"#)), &vec![], Os::Linux, None),
        "download"
    );
    assert_eq!(
        program(&None, &vec![], Os::Linux, None),
        "Could not find Java executable in JAVA_HOME or on PATH"
    );
}

#[test]
fn the_java_home_has_a_former_name() {
    let variables = environment(&[("HOME", "/h"), ("JAVA_HOME", "")]);
    let home = |source: &str| get_java_home(&Some(json(source)), &variables, Os::Linux);
    assert_eq!(home(r#"{"java": {"home": "/old"}}"#), Some("/old".to_string()));
    assert_eq!(home(r#"{"java_home": 1, "java": {"home": "/old"}}"#), None);
    assert_eq!(home("{}"), None);
}

#[test]
fn settings_name_paths() {
    let variables = environment(&[("HOME", "/h")]);
    let configuration = Some(json(
        r#"{"jdtls_launcher": "~/l", "lombok_jar": "/lombok", "java_debug_jar": 1,
            "lsp_proxy_path": "p", "gradle_bridge_path": "g", "bazel_path": "~~",
            "min_memory": "1m", "max_memory": "2m", "jdk_auto_download": "yes",
            "lombok_support": false}"#,
    ));
    assert_eq!(get_jdtls_launcher(&configuration, &variables, Os::Linux), Some("/h/l".to_string()));
    assert_eq!(get_lombok_jar(&configuration, &variables, Os::Mac), Some("/lombok".to_string()));
    assert_eq!(get_java_debug_jar(&configuration, &variables, Os::Mac), None);
    assert_eq!(get_lsp_proxy_path(&configuration, &vec![], Os::Mac), None);
    assert_eq!(get_lsp_proxy_path(&configuration, &vec![], Os::Windows), Some("p".to_string()));
    assert_eq!(
        get_gradle_bridge_path(&configuration, &variables, Os::Linux),
        Some("g".to_string())
    );
    assert_eq!(get_bazel_path(&configuration, &variables, Os::Linux), Some("/h/h".to_string()));
    assert_eq!(get_min_memory(&configuration), Some("1m".to_string()));
    assert_eq!(get_max_memory(&configuration), Some("2m".to_string()));
    assert_eq!(get_min_memory(&None), Some("1G".to_string()));
    assert_eq!(get_min_memory(&Some(json(r#"{"min_memory": 1}"#))), Some("1G".to_string()));
    assert_eq!(get_max_memory(&None), None);
    assert!(!is_java_autodownload(&configuration));
    assert!(!is_lombok_enabled(&configuration));
    assert!(is_lombok_enabled(&None));
    assert!(!is_lombok_enabled(&Some(json(
        r#"{"java": {"jdt": {"ls": {"lombokSupport": {"enabled": false}}}}}"#
    ))));
    assert_eq!(
        expand_home_path(&vec![], Os::Linux, "~".to_string()),
        Err("Failed to expand ~".to_string())
    );
    assert_eq!(expand_home_path(&vec![], Os::Windows, "~".to_string()), Ok("~".to_string()));
}

#[test]
fn test_args_list_with_spaces_quotes_elements() {
    let args = ArgsStringOrList::List(strings(&[r"C:\path with spaces\some file.txt", "arg2"]));
    assert_eq!(args.to_text(), r#""C:\path with spaces\some file.txt" arg2"#);
}

#[test]
fn test_args_single_string_preserved_as_is() {
    let args = ArgsStringOrList::String(r"C:\path with spaces\some file.txt".to_string());
    assert_eq!(args.to_text(), r"C:\path with spaces\some file.txt");
}

#[test]
fn test_args_list_no_spaces_not_quoted() {
    assert_eq!(ArgsStringOrList::List(strings(&["arg1", "arg2"])).to_text(), "arg1 arg2");
}

#[test]
fn test_args_single_element_with_spaces_quoted() {
    assert_eq!(
        ArgsStringOrList::List(strings(&["path with spaces"])).to_text(),
        r#""path with spaces""#
    );
}

#[test]
fn test_args_empty_list() {
    assert_eq!(ArgsStringOrList::List(vec![]).to_text(), "");
}

#[test]
fn test_file_uri_unix_path() {
    assert_eq!(path_to_file_uri("/home/user/project"), "file:///home/user/project");
}

#[test]
fn test_file_uri_unix_path_with_spaces() {
    assert_eq!(path_to_file_uri("/my/path with/spaces"), "file:///my/path%20with/spaces");
}

#[test]
fn test_file_uri_windows_path() {
    assert_eq!(path_to_file_uri(r"C:\Users\user\project"), "file:///C:/Users/user/project");
}

#[test]
fn test_file_uri_windows_path_with_spaces() {
    assert_eq!(
        path_to_file_uri(r"C:\Users\My User\project"),
        "file:///C:/Users/My%20User/project"
    );
}

#[test]
fn both_programs_name_a_path_by_the_same_uri() {
    for path in [r"C:\Users\My User\#1", "C:/a/ä", "rel"] {
        assert_eq!(path_to_file_uri(path), uri::path_to_file_uri(path, true));
    }
    assert_eq!(path_to_file_uri("/a b"), uri::path_to_file_uri("/a b", false));
}

#[test]
fn components_are_installed_step_by_step() {
    let once = Some(json(r#"{"check_updates": "once"}"#));
    let step = |configuration: &Option<Json>, configured: Option<&str>, local: Option<&str>, checked, cached: Option<&str>| {
        first_step(
            configuration,
            configured.map(str::to_string),
            local.map(str::to_string),
            "jdtls",
            checked,
            cached.map(str::to_string),
        )
    };
    assert!(matches!(step(&None, Some("/c"), Some("/l"), true, None), InstallStep::Use(path) if path == "/c"));
    assert!(matches!(
        step(&None, None, Some("/l"), true, Some("1.2")),
        InstallStep::Download { version, record: false } if version == "1.2"
    ));
    assert!(matches!(step(&None, None, Some("/l"), true, None), InstallStep::FetchVersion));
    assert!(matches!(step(&once, None, Some("/l"), true, Some("1.2")), InstallStep::Use(_)));
    assert!(matches!(step(&once, None, None, false, Some("1.2")), InstallStep::FetchVersion));
    assert!(matches!(
        step(&once, None, None, true, None),
        InstallStep::Fail(error)
            if error == "Update check already performed once and no local installation found for jdtls"
    ));
}

#[test]
fn an_installed_component_is_better_than_none() {
    assert!(matches!(
        after_fetch(Ok("2".to_string()), None),
        InstallStep::Download { version, record: true } if version == "2"
    ));
    assert!(matches!(
        after_fetch(Err("limit".to_string()), Some("/l".to_string())),
        InstallStep::Use(path) if path == "/l"
    ));
    assert!(matches!(
        after_download(Err("limit".to_string()), "2".to_string(), true, None),
        (InstallStep::Fail(error), None) if error == "limit"
    ));
    assert!(matches!(
        after_download(Ok("/n".to_string()), "2".to_string(), true, Some("/l".to_string())),
        (InstallStep::Use(path), Some(version)) if path == "/n" && version == "2"
    ));
    assert!(matches!(
        after_download(Ok("/n".to_string()), "2".to_string(), false, None),
        (InstallStep::Use(_), None)
    ));
}

#[test]
fn the_newest_installation_is_used() {
    let candidates = vec![
        ("a".to_string(), Some(3)),
        ("b".to_string(), None),
        ("c".to_string(), Some(5)),
        ("d".to_string(), Some(5)),
        ("e".to_string(), Some(-1)),
    ];
    assert_eq!(newest(&candidates), Some("d".to_string()));
    assert_eq!(newest(&vec![("b".to_string(), None)]), None);
}

#[test]
fn the_newest_complete_language_server_is_used() {
    let entry = |path: &str, is_directory, files, created| JdtlsEntry {
        path: path.to_string(),
        is_directory,
        files,
        created,
    };
    let entries = vec![
        entry("jdtls/1.48.0", true, complete_files(), Some(3)),
        entry("jdtls/1.49.0", true, complete_files(), Some(4)),
        entry("jdtls/1.50.0", true, files(true, false, &[]), Some(9)),
        entry("jdtls/1.51.0", false, complete_files(), Some(10)),
        entry("jdtls/1.52.0", true, complete_files(), None),
    ];
    assert_eq!(Jdtls::find_local(entries), Some("jdtls/1.49.0".to_string()));
    assert_eq!(Jdtls::find_local(Vec::new()), None);
}

#[test]
fn the_newest_lombok_archive_is_used() {
    let entry = |name: &str, is_file, created| LombokEntry {
        path: format!("lombok/{name}"),
        name: Some(name.to_string()),
        is_file,
        created: Some(created),
    };
    let entries = vec![
        entry("lombok-1.jar", true, 2),
        entry("lombok-2.jar", true, 1),
        entry("lombok-3.zip", true, 7),
        entry("lombok-4.jar", false, 8),
        entry(".jar", true, 9),
        LombokEntry {
            path: "lombok/?".to_string(),
            name: None,
            is_file: true,
            created: Some(10),
        },
    ];
    assert_eq!(Lombok::find_local(entries), Some("lombok/lombok-1.jar".to_string()));
    assert_eq!(Lombok::find_local(vec![entry(".jar", true, 9)]), None);
}

#[test]
fn released_programs_are_downloaded_and_made_executable() {
    let proxy = Proxy::new();
    assert_eq!(proxy.exec(Os::Windows), "java-lsp-proxy.exe");
    match proxy.binary_path("v6.8.0", None, None, Found::Directory, Os::Linux, Architecture::X8664) {
        NativeStep::Download { invalid, url, unpack_to, packing } => {
            assert_eq!(invalid.as_deref(), Some("bin/v6.8.0/java-lsp-proxy"));
            assert_eq!(
                url,
                "https://github.com/zed-extensions/java/releases/download/v6.8.0/java-lsp-proxy-linux-x86_64.tar.gz"
            );
            assert_eq!(unpack_to, "bin/v6.8.0");
            assert_eq!(packing, Packing::GzipTar);
        }
        _ => panic!("expected a download"),
    }
    assert!(matches!(
        downloaded_step("java-lsp-proxy", "proxy", "v6.8.0", Ok(()), true, Os::Linux),
        NativeStep::MakeExecutable(path) if path == "bin/v6.8.0/java-lsp-proxy"
    ));
    assert!(matches!(
        downloaded_step("java-lsp-proxy", "proxy", "v6.8.0", Ok(()), false, Os::Linux),
        NativeStep::Fail(error)
            if error == "Downloaded proxy archive did not contain bin/v6.8.0/java-lsp-proxy"
    ));
    assert!(matches!(
        downloaded_step("b", "bridge", "v", Err("e".to_string()), true, Os::Linux),
        NativeStep::Fail(error) if error == "Failed to download bridge: e"
    ));
}

#[test]
fn programs_that_cannot_be_made_executable_are_not_used() {
    assert!(matches!(
        executable_step("p".to_string(), "proxy", Ok(())),
        NativeStep::Use(path) if path == "p"
    ));
    assert!(matches!(
        executable_step("p".to_string(), "proxy", Err("e".to_string())),
        NativeStep::Fail(error) if error == "Failed to make proxy executable at p: e"
    ));
}

#[test]
fn lombok_is_downloaded_once() {
    assert!(matches!(
        lombok_step("1.18.30", true),
        LombokStep::Use(path) if path == "lombok/lombok-1.18.30.jar"
    ));
    match lombok_step("1.18.30", false) {
        LombokStep::Download { url, to } => {
            assert_eq!(url, lombok_url("1.18.30"));
            assert_eq!(to, "lombok/lombok-1.18.30.jar");
        }
        _ => panic!("expected a download"),
    }
    assert!(matches!(lombok_downloaded("1.18.30", Ok(())), LombokStep::Use(_)));
    assert!(matches!(
        lombok_downloaded("1", Err("e".to_string())),
        LombokStep::Fail(error)
            if error == "Failed to download Lombok from https://projectlombok.org/downloads/lombok-1.jar: e"
    ));
}

fn complete_files() -> InstallFiles {
    files(true, true, &["org.eclipse.equinox.launcher_1.0.0.jar"])
}

fn unpacking() -> JdtlsInstallation {
    let mut installation = JdtlsInstallation::new("jdtls", "1.50.0", "jdtls");
    let action = installation.step(InstallEvent::Checked(files(true, false, &[])), "", "");
    assert!(matches!(action, InstallAction::Name(url) if url == milestone_url("1.50.0")));
    let named = InstallEvent::Named {
        milestone: Ok("b.tar.gz\n".to_string()),
        nonce: Ok(7),
        taken: vec![false; 16],
    };
    match installation.step(named, "", "") {
        InstallAction::Unpack { url, to } => {
            assert_eq!(url, jdtls_download_url("1.50.0", "b.tar.gz"));
            assert_eq!(to, staging_path("jdtls", "1.50.0", 7, 0));
        }
        _ => panic!("expected a download"),
    }
    installation
}

fn inspecting() -> JdtlsInstallation {
    let mut installation = unpacking();
    let program = jdtls_binary_path(&installation.staging, "jdtls");
    assert!(matches!(
        installation.step(InstallEvent::Finished(Ok(())), "", ""),
        InstallAction::Enable(path) if path == program
    ));
    assert!(matches!(
        installation.step(InstallEvent::Finished(Ok(())), "", ""),
        InstallAction::Inspect
    ));
    installation
}

#[test]
fn a_complete_installation_is_used_as_it_is() {
    let mut installation = JdtlsInstallation::new("jdtls", "1.50.0", "jdtls");
    assert!(matches!(
        installation.step(InstallEvent::Checked(complete_files()), "", ""),
        InstallAction::Done(path) if path == "jdtls/1.50.0"
    ));
    assert_eq!(installation.phase, InstallPhase::Done);
    assert!(matches!(
        installation.step(InstallEvent::Checked(complete_files()), "", ""),
        InstallAction::Ignore
    ));
}

#[test]
fn an_unpacked_installation_takes_the_place_of_an_incomplete_one() {
    let mut installation = inspecting();
    let staging = installation.staging.clone();
    let inspected = InstallEvent::Inspected {
        staged: complete_files(),
        installed: files(true, false, &[]),
        installed_exists: true,
    };
    assert!(matches!(
        installation.step(inspected, "s", "p"),
        InstallAction::Remove(path) if path == "jdtls/1.50.0"
    ));
    assert!(matches!(
        installation.step(InstallEvent::Finished(Ok(())), "s", "p"),
        InstallAction::Move(from, to) if from == staging && to == "jdtls/1.50.0"
    ));
    assert!(matches!(
        installation.step(InstallEvent::Finished(Ok(())), "s", "p"),
        InstallAction::Done(path) if path == "jdtls/1.50.0"
    ));
}

#[test]
fn an_installation_that_another_process_made_is_kept() {
    let mut installation = inspecting();
    let staging = installation.staging.clone();
    let inspected = InstallEvent::Inspected {
        staged: complete_files(),
        installed: files(false, false, &[]),
        installed_exists: false,
    };
    assert!(matches!(installation.step(inspected, "s", "p"), InstallAction::Move(_, _)));
    let lost = InstallEvent::FailedToMove { reason: "r".to_string(), installed: complete_files() };
    assert!(matches!(
        installation.step(lost, "s", "p"),
        InstallAction::Remove(path) if path == staging
    ));
    assert!(matches!(
        installation.step(InstallEvent::Finished(Ok(())), "s", "p"),
        InstallAction::Done(_)
    ));
}

#[test]
fn failed_installations_are_cleaned_up() {
    let failed = |installation: &mut JdtlsInstallation, event| {
        match installation.step(event, "s", "p") {
            InstallAction::CleanUp(directory, error) => {
                assert_eq!(directory, installation.staging);
                error
            }
            _ => panic!("expected a failure"),
        }
    };
    let reason = || InstallEvent::Finished(Err("e".to_string()));
    let mut installation = unpacking();
    let url = installation.url.clone();
    assert_eq!(
        failed(&mut installation, reason()),
        format!("Failed to download JDTLS from {url}: e")
    );
    let mut installation = unpacking();
    installation.step(InstallEvent::Finished(Ok(())), "s", "p");
    assert_eq!(failed(&mut installation, reason()), "Failed to make JDTLS executable at p: e");
    let inspected = |staged, installed, installed_exists| InstallEvent::Inspected {
        staged,
        installed,
        installed_exists,
    };
    assert_eq!(
        failed(&mut inspecting(), inspected(files(false, true, &[]), complete_files(), true)),
        "Downloaded JDTLS installation is incomplete at s"
    );
    let mut installation = inspecting();
    installation.step(inspected(complete_files(), complete_files(), true), "s", "p");
    assert_eq!(
        failed(&mut installation, reason()),
        "Failed to remove redundant JDTLS staging directory: e"
    );
    let mut installation = inspecting();
    installation.step(inspected(complete_files(), files(false, false, &[]), true), "s", "p");
    assert_eq!(
        failed(&mut installation, reason()),
        "Failed to remove incomplete JDTLS installation: e"
    );
    let mut installation = inspecting();
    installation.step(inspected(complete_files(), files(false, false, &[]), false), "s", "p");
    let lost = InstallEvent::FailedToMove {
        reason: "e".to_string(),
        installed: files(false, false, &[]),
    };
    assert_eq!(failed(&mut installation, lost), "Failed to promote JDTLS staging directory s: e");
}

#[test]
fn installations_without_a_build_fail() {
    let named = |milestone: Result<&str, &str>, nonce: Result<u128, &str>, taken| {
        let mut installation = JdtlsInstallation::new("jdtls", "1", "jdtls");
        installation.step(InstallEvent::Checked(files(false, false, &[])), "", "");
        let event = InstallEvent::Named {
            milestone: milestone.map(str::to_string).map_err(str::to_string),
            nonce: nonce.map_err(str::to_string),
            taken: vec![taken; 16],
        };
        match installation.step(event, "", "") {
            InstallAction::Fail(error) => error,
            _ => panic!("expected a failure"),
        }
    };
    assert_eq!(named(Err("m"), Ok(1), false), "m");
    assert_eq!(named(Ok("b"), Err("n"), false), "n");
    assert_eq!(
        named(Ok("b"), Ok(1), true),
        "Failed to allocate a JDTLS staging directory for 1"
    );
}

#[test]
fn released_programs_are_not_downloaded_twice() {
    let bridge = GradleBridge::new();
    assert_eq!(bridge.exec(Os::Linux), "gradle-lsp-bridge");
    let step = |configured: Option<&str>, local: Option<&str>, found, architecture| {
        bridge.binary_path(
            "v1",
            configured.map(str::to_string),
            local.map(str::to_string),
            found,
            Os::Linux,
            architecture,
        )
    };
    let used = |step| match step {
        NativeStep::Use(path) => path,
        _ => panic!("expected a program"),
    };
    assert_eq!(used(step(Some("/c"), Some("/l"), Found::Nothing, Architecture::X86)), "/c");
    assert_eq!(used(step(None, Some("/l"), Found::Nothing, Architecture::X86)), "/l");
    assert_eq!(
        used(step(None, None, Found::File, Architecture::Aarch64)),
        "bin/v1/gradle-lsp-bridge"
    );
    assert!(matches!(
        step(None, None, Found::File, Architecture::X86),
        NativeStep::Fail(error) if error == "Unsupported architecture"
    ));
}

fn bundle_names() -> Vec<String> {
    strings(&[
        "com.salesforce.bazel.sdk.source_1.jar",
        "com.salesforce.bazel.eclipse.jdtls_1.jar",
        "com.salesforce.bazel.eclipse.core_1.jar",
        "com.salesforce.bazel.sdk_1.jar",
        "com.salesforce.bazel.importedsource_1.jar",
        "org.fusesource.jansi_1.jar",
        "com.google.protobuf_1.jar",
        "com.github.ben-manes.caffeine_1.jar",
        "org.jsr-305_1.jar",
        "org.eclipse.equinox.event_1.txt",
        "org.eclipse.equinox.event_1.jar",
    ])
}

#[test]
fn all_bundles_are_required() {
    let names = bundle_names();
    let found = Bazel::find_bundles("d", &names).unwrap();
    assert_eq!(found.len(), 9);
    assert_eq!(found[2], "d/com.salesforce.bazel.sdk_1.jar");
    assert_eq!(found[8], "d/org.eclipse.equinox.event_1.jar");
    let fewer = names[..10].to_vec();
    assert_eq!(Bazel::find_bundles("d", &fewer), None);
    assert_eq!(
        Bazel::resolve_bundles("d", &Some(names.clone()), &None).unwrap()[0],
        "d/plugins/com.salesforce.bazel.eclipse.jdtls_1.jar"
    );
    assert_eq!(
        Bazel::resolve_bundles("d", &Some(fewer), &Some(names)).unwrap()[0],
        "d/com.salesforce.bazel.eclipse.jdtls_1.jar"
    );
    assert_eq!(Bazel::resolve_bundles("d", &None, &None), None);
}

#[test]
fn bundles_are_added_to_the_options_once() {
    let mut bazel = Bazel::new();
    assert!(!bazel.loaded());
    let here = || Ok("/e".to_string());
    assert_eq!(
        bazel.inject_bundles_into_options(here(), None),
        Err("Bazel bundles not loaded".to_string())
    );
    bazel.bundles = Some(strings(&["a.jar", "/b.jar"]));
    assert_eq!(
        bazel.inject_bundles_into_options(here(), None),
        Ok(json(r#"{"bundles": ["/e/a.jar", "/b.jar"]}"#))
    );
    assert_eq!(
        bazel.inject_bundles_into_options(here(), Some(json(r#"{"bundles": [1, "/b.jar"], "x": 2}"#))),
        Ok(json(r#"{"bundles": [1, "/b.jar", "/e/a.jar"], "x": 2}"#))
    );
    assert_eq!(
        bazel.inject_bundles_into_options(here(), Some(json(r#"{"bundles": "no"}"#))),
        Ok(json(r#"{"bundles": ["/e/a.jar", "/b.jar"]}"#))
    );
    assert_eq!(
        bazel.inject_bundles_into_options(Err("lost".to_string()), None),
        Err("lost".to_string())
    );
}

#[test]
fn bundles_are_found_step_by_step() {
    let mut bazel = Bazel::new();
    let never = Some(json(r#"{"check_updates": "never"}"#));
    assert!(matches!(
        bazel.first_step(&never, Some("/c".to_string()), None, false),
        BazelStep::Configured(path) if path == "/c"
    ));
    assert!(matches!(
        bazel.first_step(&never, None, Some("bazel/plugins".to_string()), false),
        BazelStep::Local(path) if path == "bazel/plugins"
    ));
    assert!(matches!(
        bazel.first_step(&never, None, None, false),
        BazelStep::Fail(error)
            if error == "Update checks disabled (never) and no local installation found for bazel"
    ));
    assert!(matches!(bazel.first_step(&None, None, None, true), BazelStep::Download));
    bazel.bundles = Some(vec![]);
    assert!(matches!(bazel.first_step(&never, None, None, false), BazelStep::Loaded));
}

#[test]
fn components_begin_unloaded() {
    assert!(!Jdtls::new().loaded());
    assert!(!Lombok::new().loaded());
    assert!(!GradleLs::new().loaded());
    assert!(Jdtls { cached_path: Some("x".to_string()) }.loaded());
}

#[test]
fn heap_sizes_that_cannot_be_counted_are_left_in_their_order() {
    let configuration = Some(json(r#"{"min_memory": "17179869184G", "max_memory": "1G"}"#));
    let args = build_jdtls_launch_args("java", "/c", &configuration, vec![], "l.jar", "/d", 21);
    assert!(args.contains(&"-Xms17179869184G".to_string()));
    assert!(args.contains(&"-Xmx1G".to_string()));
    let args = build_jdtls_launch_args("java", "/c", &None, vec![], "l.jar", "/d", 21);
    assert!(args.contains(&"-Xms1G".to_string()));
}

#[test]
fn the_gradle_version_is_fixed() {
    let download = |version: &str, record| InstallStep::Download {
        version: version.to_string(),
        record,
    };
    for step in [InstallStep::FetchVersion, download("9.9.9", true), download("1.0.0", false)] {
        assert!(matches!(
            fixed_step(step),
            InstallStep::Download { version, record: false } if version == "3.18.0"
        ));
    }
    assert!(matches!(
        fixed_step(InstallStep::Use("/g".to_string())),
        InstallStep::Use(path) if path == "/g"
    ));
    assert!(matches!(
        fixed_step(InstallStep::Fail("no".to_string())),
        InstallStep::Fail(error) if error == "no"
    ));
}

#[test]
fn bundles_are_settled_by_the_step_that_finds_them() {
    let found = Some(strings(&["/b/a.jar"]));
    let mut bazel = Bazel::new();
    assert_eq!(
        bazel.settle(&BazelStep::Configured("/b".to_string()), None),
        Err("No Bazel bundles found at configured bazel_path: /b".to_string())
    );
    assert_eq!(
        bazel.settle(&BazelStep::Local("bazel/plugins".to_string()), None),
        Err("Bazel bundles missing from local installation".to_string())
    );
    assert_eq!(
        bazel.settle(&BazelStep::Download, None),
        Err("Failed to find Bazel bundles after extraction".to_string())
    );
    assert_eq!(
        bazel.settle(&BazelStep::Fail("no".to_string()), found.clone()),
        Err("no".to_string())
    );
    assert!(!bazel.loaded());
    assert_eq!(
        bazel.settle(&BazelStep::Configured("/b".to_string()), found.clone()),
        Ok("/b".to_string())
    );
    assert_eq!(bazel.bundles, found);
    assert_eq!(bazel.settle(&BazelStep::Loaded, None), Ok("bazel/plugins".to_string()));
    assert_eq!(bazel.bundles, found);
    let mut fresh = Bazel::new();
    assert_eq!(fresh.settle(&BazelStep::Download, found), Ok("bazel/plugins".to_string()));
    assert!(fresh.loaded());
}

#[test]
fn options_are_not_looked_at_where_bundles_are_missing() {
    let bazel = Bazel::new();
    assert_eq!(
        bazel.inject_bundles_into_options(Ok("/w".to_string()), Some(json("[]"))).err(),
        Some("Bazel bundles not loaded".to_string())
    );
    assert_eq!(
        bazel.inject_bundles_into_options(Err("no".to_string()), Some(json("1"))).err(),
        Some("no".to_string())
    );
}

#[test]
fn bundles_are_added_once() {
    let mut bazel = Bazel::new();
    bazel.bundles = Some(strings(&["bazel/plugins/a.jar", "bazel/plugins/b.jar"]));
    for options in [None, Some(json("{}")), Some(json(r#"{"bundles": ["x", "/w/bazel/plugins/b.jar"]}"#))]
    {
        let once = bazel.inject_bundles_into_options(Ok("/w".to_string()), options).unwrap();
        let twice =
            bazel.inject_bundles_into_options(Ok("/w".to_string()), Some(once.clone())).unwrap();
        assert_eq!(once, twice);
    }
}
