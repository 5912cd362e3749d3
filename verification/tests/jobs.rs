use pmtiler::archive::ArchiveWriter;
use pmtiler::chunking::{
    auto_chunk_tiles, chunk_count, chunk_tiles_for_zoom, estimate_chunk_bytes_for_span,
    estimate_chunk_working_set, reserved_directory_bytes, tile_extent, worker_count,
};
use pmtiler::error::ErrorKind;
use pmtiler::jobs::{chunk_jobs, enumerate_tile_jobs, jobs_by_zoom, TileJob, TileRange};
use pmtiler::options::{
    ChunkTiles, GdalTuning, RasterFormat, RasterOptions, Resampling, StrategyPreference,
    WarpThreads,
};
use pmtiler::render::{run, zoom_chunks, zoom_tasks, Task};

fn lonlat_to_tile(lon: f64, lat: f64, z: u8) -> (u32, u32) {
    let n = 1_u32 << z;
    let max_index = f64::from(n - 1);
    let lon = lon.clamp(-180.0, 180.0);
    let lat = lat.clamp(-85.051_128_78, 85.051_128_78);
    let x = ((lon + 180.0) / 360.0 * f64::from(n)).floor().clamp(0.0, max_index);
    let lat_rad = lat.to_radians();
    let y = ((1.0 - lat_rad.tan().asinh() / std::f64::consts::PI) / 2.0 * f64::from(n))
        .floor()
        .clamp(0.0, max_index);
    (x as u32, y as u32)
}

fn ranges(bounds: [f64; 4], min_zoom: u8, max_zoom: u8) -> Vec<TileRange> {
    let [west, south, east, north] = bounds;
    (min_zoom..=max_zoom)
        .map(|z| {
            let (min_x, max_y) = lonlat_to_tile(west, south, z);
            let (max_x, min_y) = lonlat_to_tile(east, north, z);
            TileRange { min_x, max_x, min_y, max_y }
        })
        .collect()
}

fn jobs_in(bounds: [f64; 4], min_zoom: u8, max_zoom: u8) -> Vec<TileJob> {
    enumerate_tile_jobs(&ranges(bounds, min_zoom, max_zoom), min_zoom, max_zoom).unwrap()
}

fn options(min_zoom: u8, max_zoom: u8) -> RasterOptions {
    RasterOptions {
        input: "input.tif".to_owned(),
        output: "output.pmtiles".to_owned(),
        min_zoom,
        max_zoom,
        format: RasterFormat::Webp,
        tile_size: 512,
        workers: 8,
        chunk_tiles: ChunkTiles::Auto,
        warp_memory_bytes: 512 * 1024 * 1024,
        warp_threads: WarpThreads::Auto,
        resampling: Resampling::Bilinear,
        strategy: StrategyPreference::Auto,
        webp_method: 4,
        gdal_tuning: GdalTuning {
            cache_bytes: None,
            config_options: Vec::new(),
            open_options: Vec::new(),
        },
        warp_options: Vec::new(),
        plan_only: false,
    }
}

#[test]
fn world_bounds_at_z0_have_one_job() {
    let jobs = jobs_in([-180.0, -85.051_128_78, 180.0, 85.051_128_78], 0, 0);
    assert_eq!(
        jobs,
        vec![TileJob {
            z: 0,
            x: 0,
            y: 0,
            tile_id: 0
        }]
    );
}

#[test]
fn jobs_are_sorted_by_pmtiles_id() {
    let jobs = jobs_in([-180.0, -85.051_128_78, 180.0, 85.051_128_78], 0, 1);
    let ids = jobs.iter().map(|job| job.tile_id).collect::<Vec<_>>();
    assert_eq!(ids, vec![0, 1, 2, 3, 4]);
}

#[test]
fn conus_counts_are_reasonable() {
    let jobs = jobs_in([-125.0, 24.0, -66.0, 50.0], 0, 3);
    let z3 = jobs.iter().filter(|job| job.z == 3).count();
    assert_eq!(z3, 4);
}

#[test]
fn auto_chunking_keeps_parallel_chunks_for_world_zoom_five() {
    let jobs = jobs_in([-180.0, -85.051_128_78, 180.0, 85.051_128_78], 5, 5);
    let opts = options(5, 5);
    assert_eq!(auto_chunk_tiles(&opts, &jobs), 4);
}

#[test]
fn auto_chunking_avoids_tiny_low_zoom_chunks() {
    let jobs = jobs_in([-180.0, -85.051_128_78, 180.0, 85.051_128_78], 2, 2);
    let opts = options(2, 2);
    assert_eq!(auto_chunk_tiles(&opts, &jobs), 4);
}

#[test]
fn known_areas_have_known_numbers_of_tiles() {
    let world = [-180.0, -85.051_128_78, 180.0, 85.051_128_78];
    assert_eq!(jobs_in(world, 0, 5).len(), 1365);
    assert_eq!(jobs_in(world, 0, 6).len(), 5461);
    let conus = [-126.0015, 24.9985, -59.9985, 50.0015];
    assert_eq!(jobs_in(conus, 0, 10).len(), 23_428);
    assert_eq!(jobs_in(conus, 11, 11).len(), 69_184);
    assert_eq!(jobs_in(conus, 0, 11).len(), 92_612);
}

#[test]
fn a_large_archive_has_its_sections_in_place() {
    let jobs = jobs_in([-126.0015, 24.9985, -59.9985, 50.0015], 0, 11);
    let mut writer = ArchiveWriter::create_with_reserved_directories(
        reserved_directory_bytes(jobs.len()),
    );
    for job in &jobs {
        writer.add_tile(job.tile_id, 48_000);
    }
    let layout = writer.finish_reserved_directories(&[b' '; 343]).ok().unwrap().layout;
    assert_eq!(layout.root_length, 168);
    assert_eq!((layout.metadata_offset, layout.metadata_length), (295, 343));
    assert_eq!(layout.leaf_directory_offset, 638);
    assert_eq!(layout.entries_count, 92_612);
    assert_eq!(layout.tile_data_offset, 127 + 2_222_688);
    assert_eq!(layout.tile_data_length, 92_612 * 48_000);
}

#[test]
fn zoom_ranges_must_be_in_order_and_in_reach() {
    let error = enumerate_tile_jobs(&Vec::new(), 3, 2).unwrap_err();
    assert_eq!(error.kind, ErrorKind::InvalidInput);
    assert_eq!(error.message, "--zoom minimum must be <= maximum");
    let error = enumerate_tile_jobs(&Vec::new(), 0, 32).unwrap_err();
    assert_eq!(error.kind, ErrorKind::InvalidInput);
    assert_eq!(error.message, "PMTiles tile ids support zoom levels 0..31");
}

#[test]
fn jobs_are_exactly_the_tiles_of_the_ranges() {
    let ranges = vec![
        TileRange { min_x: 1, max_x: 2, min_y: 0, max_y: 3 },
        TileRange { min_x: 5, max_x: 5, min_y: 6, max_y: 7 },
    ];
    let jobs = enumerate_tile_jobs(&ranges, 2, 3).unwrap();
    assert_eq!(jobs.len(), 10);
    let mut cells: Vec<(u8, u32, u32)> = jobs.iter().map(|job| (job.z, job.x, job.y)).collect();
    cells.sort();
    assert_eq!(
        cells,
        vec![
            (2, 1, 0), (2, 1, 1), (2, 1, 2), (2, 1, 3), (2, 2, 0), (2, 2, 1), (2, 2, 2),
            (2, 2, 3), (3, 5, 6), (3, 5, 7),
        ]
    );
    assert!(jobs.windows(2).all(|pair| pair[0].tile_id < pair[1].tile_id));

    let empty = vec![TileRange { min_x: 2, max_x: 1, min_y: 0, max_y: 0 }];
    assert!(enumerate_tile_jobs(&empty, 4, 4).unwrap().is_empty());
}

#[test]
fn jobs_are_cut_by_zoom() {
    let jobs = jobs_in([-180.0, -85.051_128_78, 180.0, 85.051_128_78], 0, 3);
    let groups = jobs_by_zoom(&jobs);
    let sizes: Vec<(u8, usize)> = groups.iter().map(|g| (g[0].z, g.len())).collect();
    assert_eq!(sizes, vec![(0, 1), (1, 4), (2, 16), (3, 64)]);
    assert_eq!(groups.concat(), jobs);
    assert!(jobs_by_zoom(&[]).is_empty());

    // Jobs that are not in order of zoom are cut at every change.
    let mixed = vec![jobs[0], jobs[1], jobs[2], jobs[0]];
    let sizes: Vec<usize> = jobs_by_zoom(&mixed).iter().map(|g| g.len()).collect();
    assert_eq!(sizes, vec![1, 2, 1]);
}

#[test]
fn chunks_are_blocks_in_column_order() {
    let jobs = jobs_in([-180.0, -85.051_128_78, 180.0, 85.051_128_78], 2, 2);
    let chunks = chunk_jobs(&jobs, 2);
    let corners: Vec<(u32, u32)> = chunks.iter().map(|c| (c[0].x / 2, c[0].y / 2)).collect();
    assert_eq!(corners, vec![(0, 0), (0, 1), (1, 0), (1, 1)]);
    for chunk in &chunks {
        assert_eq!(chunk.len(), 4);
        assert!(chunk.windows(2).all(|pair| pair[0].tile_id < pair[1].tile_id));
        assert!(chunk.iter().all(|job| job.x / 2 == chunk[0].x / 2 && job.y / 2 == chunk[0].y / 2));
    }
    let mut all = chunks.concat();
    all.sort_by_key(|job| job.tile_id);
    assert_eq!(all, jobs);
    assert_eq!(chunk_jobs(&jobs, 4), vec![jobs.clone()]);
    assert!(chunk_jobs(&[], 4).is_empty());
}

#[test]
fn extents_and_blocks_are_counted() {
    let jobs = jobs_in([-125.0, 24.0, -66.0, 50.0], 3, 3);
    assert_eq!(tile_extent(&jobs), TileRange { min_x: 1, max_x: 2, min_y: 2, max_y: 3 });
    assert_eq!(tile_extent(&[]), TileRange { min_x: 0, max_x: 0, min_y: 0, max_y: 0 });
    assert_eq!(chunk_count(9, 8, 4), 6);
    assert_eq!(chunk_count(9, 8, 0), 72);
    assert_eq!(chunk_count(u32::MAX, u32::MAX, 1), 0xffff_fffe_0000_0001);
    assert_eq!(estimate_chunk_bytes_for_span(512, 4, 4), 33_554_432);
    assert_eq!(estimate_chunk_bytes_for_span(u32::MAX, u32::MAX, u32::MAX), u64::MAX);
    assert_eq!(estimate_chunk_bytes_for_span(0, 4, 4), 0);
    // Columns 1 and 2 have the places 1 and 2 in blocks of four, rows 2 and 3 the places 2 and 3.
    assert_eq!(estimate_chunk_working_set(256, &jobs, 4), 3 * 256 * 4 * 256 * 8);
    assert_eq!(estimate_chunk_working_set(256, &[], 4), 256 * 256 * 8);
    assert_eq!(worker_count(0, 0), 1);
    assert_eq!(worker_count(8, 3), 3);
    assert_eq!(worker_count(2, 30), 2);
}

#[test]
fn reserved_space_grows_with_the_tiles() {
    assert_eq!(reserved_directory_bytes(0), 65_536);
    assert_eq!(reserved_directory_bytes(92_612), 2_222_688);
    assert_eq!(reserved_directory_bytes(10_000_000), 16_777_216);
    assert_eq!(reserved_directory_bytes(usize::MAX), 16_777_216);
}

#[test]
fn chunk_sizes_follow_workers_and_memory() {
    let jobs = jobs_in([-180.0, -85.051_128_78, 180.0, 85.051_128_78], 7, 7);
    let mut opts = options(7, 7);
    // 16384 tiles and 64 wanted blocks: blocks of 16 by 16 tiles would be 64, but take too much.
    assert_eq!(auto_chunk_tiles(&opts, &jobs), 8);
    opts.tile_size = 256;
    assert_eq!(auto_chunk_tiles(&opts, &jobs), 16);
    opts.warp_memory_bytes = 0;
    assert_eq!(auto_chunk_tiles(&opts, &jobs), 8);
    opts.tile_size = 4096;
    assert_eq!(auto_chunk_tiles(&opts, &jobs), 1);
    opts.tile_size = 1024;
    assert_eq!(auto_chunk_tiles(&opts, &jobs), 2);
    assert_eq!(chunk_tiles_for_zoom(&opts, &jobs), Some(2));
    opts.chunk_tiles = ChunkTiles::Fixed(8);
    assert_eq!(chunk_tiles_for_zoom(&opts, &jobs), Some(8));
    opts.chunk_tiles = ChunkTiles::Disabled;
    assert_eq!(chunk_tiles_for_zoom(&opts, &jobs), None);
}

#[test]
fn tasks_cover_all_zooms() {
    let jobs = jobs_in([-180.0, -85.051_128_78, 180.0, 85.051_128_78], 0, 3);
    let mut opts = options(0, 3);
    opts.chunk_tiles = ChunkTiles::Fixed(2);
    let tasks = zoom_tasks(&opts, &jobs);
    let done: Vec<usize> = tasks.iter().map(|task| task.completed).collect();
    assert_eq!(done, vec![1, 5, 21, 85]);
    assert!(tasks.iter().all(|task| task.chunk_tiles == Some(2)));

    let chunks = zoom_chunks(&opts, tasks[2].jobs, 2);
    assert_eq!(chunks.chunks.len(), 4);
    assert_eq!(chunks.worker_count, 4);
    assert!(!chunks.sequential);
    assert_eq!(chunks.working_set, 2 * 512 * 2 * 512 * 8);
    let single = zoom_chunks(&opts, tasks[0].jobs, 2);
    assert!(single.sequential);
    assert_eq!(single.worker_count, 1);
}

#[test]
fn runs_either_plan_or_render() {
    let ranges = ranges([-180.0, -85.051_128_78, 180.0, 85.051_128_78], 0, 1);
    let mut opts = options(0, 1);
    let Ok(Task::Render(jobs)) = run(&opts, &ranges) else {
        panic!("tiles are rendered");
    };
    assert_eq!(jobs.len(), 5);
    opts.plan_only = true;
    let Ok(Task::Plan(jobs)) = run(&opts, &ranges) else {
        panic!("the plan is shown");
    };
    assert_eq!(jobs.len(), 5);
    opts.min_zoom = 2;
    assert_eq!(run(&opts, &Vec::new()).unwrap_err().message, "--zoom minimum must be <= maximum");
    opts.max_zoom = 40;
    assert_eq!(
        run(&opts, &Vec::new()).unwrap_err().message,
        "PMTiles tile ids support zoom levels 0..31"
    );
}
