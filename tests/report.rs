use logalyzer::report::{classify_entry, ArchiveTime, EntryKind, ReportIndex};

fn t() -> ArchiveTime {
    ArchiveTime { year: 2024, month: 1, day: 2, hour: 3, minute: 4, second: 5 }
}

#[test]
fn entries_are_told_apart_by_name() {
    assert_eq!(classify_entry("Server/AcsService.exe.log"), EntryKind::ServerLog);
    assert_eq!(classify_entry("Server/AcsService.exe.1.log"), EntryKind::ServerLog);
    assert_eq!(classify_entry("Client/AcsClient.exe.log"), EntryKind::ClientLog);
    assert_eq!(classify_entry("Server/ServerConfigurationSheet.xml"), EntryKind::ConfigurationSheet);
    assert_eq!(classify_entry("Server/AcsService.exe.txt"), EntryKind::Other);
    assert_eq!(classify_entry("Other/AcsService.exe.log"), EntryKind::Other);
    assert_eq!(classify_entry(""), EntryKind::Other);
}

#[test]
fn index_files_logs_by_origin() {
    let mut index = ReportIndex::new();
    assert_eq!(index.add_entry("Server/AcsService.exe.log".into(), t()), EntryKind::ServerLog);
    assert_eq!(index.add_entry("Client/AcsClient.exe.log".into(), t()), EntryKind::ClientLog);
    assert_eq!(index.add_entry("readme.txt".into(), t()), EntryKind::Other);
    assert_eq!(index.server_logs.len(), 1);
    assert_eq!(index.client_logs.len(), 1);
    assert_eq!(index.server_logs[0].name, "Server/AcsService.exe.log");
    assert_eq!(index.client_logs[0].modified, t());
}
