use kvs::errors::KvsError;
use kvs::thread_pool::naive::NaiveThreadPool;
use kvs::thread_pool::rayon::RayonThreadPool;
use kvs::thread_pool::respawn_after_exit;
use kvs::thread_pool::ThreadPool;

#[test]
fn stub_pools_are_unimplemented() {
    assert!(matches!(
        NaiveThreadPool::new(4),
        Err(KvsError::Unsupported)
    ));
    assert!(matches!(
        RayonThreadPool::new(4),
        Err(KvsError::Unsupported)
    ));
}

#[test]
fn supervisor_replaces_only_abnormal_exits() {
    assert!(respawn_after_exit(false));
    assert!(!respawn_after_exit(true));
}
