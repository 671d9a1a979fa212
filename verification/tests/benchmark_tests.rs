//! Throughput smoke tests over the basic operations: bulk insertion,
//! scanning queries and full iteration.

use slotmap_graph::SlotMapGraph;
use std::time::Instant;

type TestData = u32;

#[test]
fn test_basic_addition_benchmark() {
    let sizes = [1000, 5000, 10000];

    for &size in &sizes {
        let start = Instant::now();
        let mut graph: SlotMapGraph<TestData, TestData> = SlotMapGraph::new();

        for i in 0..size {
            graph.add_vertex(i as TestData);
        }

        let elapsed = start.elapsed();
        assert_eq!(graph.vertex_count(), size);
        println!("added {} vertices in {:?}", size, elapsed);
    }
}

#[test]
fn test_basic_query_benchmark() {
    let size = 10000;

    let mut graph: SlotMapGraph<TestData, TestData> = SlotMapGraph::new();
    for i in 0..size {
        graph.add_vertex(i as TestData);
    }

    let start = Instant::now();
    let mut count = 0;
    for (_, weight) in graph.all_vertices() {
        if *weight % 2 == 0 {
            count += 1;
        }
    }
    let elapsed = start.elapsed();

    assert_eq!(count, size / 2);
    println!("found {} even values in {:?}", count, elapsed);
}

#[test]
fn test_basic_iteration_benchmark() {
    let size = 10000;

    let mut graph: SlotMapGraph<TestData, TestData> = SlotMapGraph::new();
    for i in 0..size {
        graph.add_vertex(i as TestData);
    }

    let start = Instant::now();
    let mut sum = 0u64;
    for (_, weight) in graph.all_vertices() {
        sum += *weight as u64;
    }
    let elapsed = start.elapsed();

    assert_eq!(sum, (size as u64 - 1) * size as u64 / 2);
    println!("summed {} values in {:?}", size, elapsed);
}

#[test]
fn test_basic_memory_benchmark() {
    let size = 50000;

    let start = Instant::now();
    let mut graph: SlotMapGraph<TestData, TestData> = SlotMapGraph::new();

    for i in 0..size {
        graph.add_vertex(i as TestData);
    }

    let elapsed = start.elapsed();
    let count = graph.all_vertices().len();

    assert_eq!(count, size);
    println!("created {} vertices in {:?}", size, elapsed);
}
