use webkv::handler::{plan_response, handle_fs, handle_stats, render_head, FsLookup, BodyPlan};
use webkv::stats::Stats;

fn header(plan: &webkv::handler::ResponsePlan, name: &[u8]) -> Option<Vec<u8>> {
    plan.headers.iter().find(|(n, _)| n == name).map(|(_, v)| v.clone())
}

#[test]
fn existing_file_gets_200_with_exact_length() {
    let plan = plan_response(b"./hello.txt", &FsLookup::File { size: 2048 });
    assert_eq!(plan.status, 200);
    assert_eq!(header(&plan, b"Content-Type"), Some(b"text/plain".to_vec()));
    assert_eq!(header(&plan, b"Content-Length"), Some(b"2048".to_vec()));
    match plan.body {
        BodyPlan::StreamFile { path } => assert_eq!(path, b"./hello.txt".to_vec()),
        _ => panic!("a file is streamed"),
    }
}

#[test]
fn directory_with_index_serves_the_index_file() {
    let plan = plan_response(b"./dir", &FsLookup::DirWithIndex { index_size: 5 });
    assert_eq!(plan.status, 200);
    assert_eq!(header(&plan, b"Content-Type"), Some(b"text/html".to_vec()));
    assert_eq!(header(&plan, b"Content-Length"), Some(b"5".to_vec()));
    match plan.body {
        BodyPlan::StreamFile { path } => assert_eq!(path, b"./dir/index.html".to_vec()),
        _ => panic!("the index file is streamed"),
    }
}

#[test]
fn directory_without_index_gets_a_listing() {
    let plan = plan_response(b"./dir", &FsLookup::DirNoIndex);
    assert_eq!(plan.status, 200);
    assert_eq!(header(&plan, b"Content-Type"), Some(b"text/html".to_vec()));
    assert!(matches!(plan.body, BodyPlan::DirListing));
}

#[test]
fn missing_path_gets_404() {
    let plan = plan_response(b"./nope", &FsLookup::Missing);
    assert_eq!(plan.status, 404);
    assert!(plan.headers.is_empty());
    assert!(matches!(plan.body, BodyPlan::Empty));
}

#[test]
fn filesystem_fault_gets_500() {
    let plan = plan_response(b"./locked", &FsLookup::IoError);
    assert_eq!(plan.status, 500);
    assert!(plan.headers.is_empty());
    assert!(matches!(plan.body, BodyPlan::Empty));
}

#[test]
fn handle_fs_counts_each_outcome_once() {
    let mut stats = Stats::new();
    handle_fs(&mut stats, b"./a.txt", &FsLookup::File { size: 1 });
    handle_fs(&mut stats, b"./b.txt", &FsLookup::File { size: 1 });
    handle_fs(&mut stats, b"./nope", &FsLookup::Missing);
    handle_fs(&mut stats, b"./locked", &FsLookup::IoError);
    assert_eq!(stats.count(200), 2);
    assert_eq!(stats.count(404), 1);
    assert_eq!(stats.count(500), 1);
    assert_eq!(stats.count(301), 0);
}

#[test]
fn stats_page_reports_counts_in_ascending_code_order() {
    let mut stats = Stats::new();
    // recorded out of code order on purpose
    stats.incr(500);
    stats.incr(200);
    stats.incr(404);
    stats.incr(200);
    let plan = handle_stats(&stats);
    assert_eq!(plan.status, 200);
    assert_eq!(header(&plan, b"Content-Type"), Some(b"text/plain".to_vec()));
    match plan.body {
        BodyPlan::Bytes { bytes } => assert_eq!(bytes,
            b"OK: 2\r\nNot Found: 1\r\nInternal Server Error: 1\r\n".to_vec()),
        _ => panic!("the statistics page is a fixed body"),
    }
}

#[test]
fn stats_page_does_not_count_itself() {
    let mut stats = Stats::new();
    stats.incr(200);
    let _ = handle_stats(&stats);
    let _ = handle_stats(&stats);
    assert_eq!(stats.count(200), 1);
    assert_eq!(stats.count(404), 0);
}

#[test]
fn items_are_sorted_by_code() {
    let mut stats = Stats::new();
    stats.incr(500);
    stats.incr(200);
    stats.incr(404);
    stats.incr(404);
    assert_eq!(stats.items(), vec![(200, 1), (404, 2), (500, 1)]);
}

#[test]
fn rendered_head_for_not_found() {
    let plan = plan_response(b"./nope", &FsLookup::Missing);
    assert_eq!(render_head(&plan), b"HTTP/1.1 404 Not Found\r\n\r\n".to_vec());
}

#[test]
fn rendered_head_for_a_file() {
    let plan = plan_response(b"./p.html", &FsLookup::File { size: 10 });
    assert_eq!(render_head(&plan),
        b"HTTP/1.1 200 OK\r\nContent-Type: text/html\r\nContent-Length: 10\r\n\r\n".to_vec());
}
