use ncp_core::metrics::{free_memory_field, gpu_figures};

#[test]
fn memory_pressure_field() {
    let out = "The system has 17179869184 (4194304 pages with a page size of 4096).\n\
               Pages free: 12345\n\
               System-wide memory free percentage: 63%\n";
    assert_eq!(free_memory_field(out), Some("63".to_string()));
    assert_eq!(free_memory_field("System-wide memory free percentage:   7.5%%  \r\n"), Some("7.5".to_string()));
    assert_eq!(free_memory_field("no such line\n"), None);
    assert_eq!(free_memory_field(" System-wide memory free percentage: 1%"), None);
    assert_eq!(
        free_memory_field("System-wide memory free percentage: x\nSystem-wide memory free percentage: 5%"),
        Some("x".to_string())
    );
}

#[test]
fn gpu_load_figures() {
    let out = "+-o AGXAccelerator\n\
               \"PerformanceStatistics\" = {\"Device Utilization %\"=12,\"Renderer\"=3}\n\
               | \"Device Utilization %\" = 45.5 extra\n\
               other line\n\
               Device Utilization % without value\n";
    let figures = gpu_figures(out);
    assert_eq!(figures, vec!["".to_string(), "45.5".to_string(), "".to_string()]);
    assert!(gpu_figures("").is_empty());
    assert_eq!(gpu_figures("Device Utilization %=  99,5"), vec!["99".to_string()]);
}
