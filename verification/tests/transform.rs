use nullstack_swc::{relative_file_path, transform_passes, NullstackPluginOptions, Pass};

fn options(development: bool, client: bool, template: bool) -> NullstackPluginOptions {
    NullstackPluginOptions { development, client, template }
}

#[test]
fn template_on_client_in_development() {
    let p = transform_passes(&options(true, true, true), "src/Application.njs");
    assert_eq!(
        p,
        vec![
            Pass::InjectAccept,
            Pass::ReplaceLazy,
            Pass::ReplaceRef,
            Pass::InjectSource,
            Pass::InjectHash,
            Pass::InjectInnerComponent,
            Pass::ReplaceServerFunction,
            Pass::RemoveUnused,
        ]
    );
}

#[test]
fn template_on_server_in_production() {
    let p = transform_passes(&options(false, false, true), "src/Application.njs");
    assert_eq!(
        p,
        vec![
            Pass::ReplaceRef,
            Pass::InjectSource,
            Pass::InjectHash,
            Pass::InjectInnerComponent,
            Pass::RemoveStyles,
            Pass::RegisterServerFunction,
        ]
    );
}

#[test]
fn entry_points_in_development_get_the_runtime() {
    for f in ["server.js", "server.ts", "client.js", "client.ts"] {
        assert_eq!(transform_passes(&options(true, false, false), f), vec![Pass::InjectRuntime, Pass::InjectRestart]);
    }
    assert_eq!(transform_passes(&options(false, false, false), "server.js"), vec![]);
    assert_eq!(transform_passes(&options(true, false, false), "src/server.js"), vec![]);
    assert_eq!(transform_passes(&NullstackPluginOptions::default(), "client.ts"), vec![]);
}

#[test]
fn relative_file_path_strips_the_project_directory() {
    assert_eq!(relative_file_path("/home/app/src/Application.njs", "/home/app"), Some("src/Application.njs".to_string()));
    assert_eq!(relative_file_path("/server.js", "/"), Some("erver.js".to_string()));
    assert_eq!(relative_file_path("/x", ""), Some("x".to_string()));
    assert_eq!(relative_file_path("/home/app", "/home/app"), None);
    assert_eq!(relative_file_path("", "/"), None);
}
