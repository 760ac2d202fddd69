//! Graph-based HDBSCAN clustering of image embeddings.
//!
//! Distances between embeddings are floating point and are computed by the
//! application; the library holds the integer logic of the algorithm: the
//! union–find and Kruskal bookkeeping, pivot sampling, candidate gathering,
//! connected components, the dendrogram and the final labelling.
pub mod dsu;
pub mod sorted;
pub mod graph;
pub mod knn;
pub mod components;
pub mod dendrogram;
pub mod labels;
pub mod command;
